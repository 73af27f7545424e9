//! Where each precompile is installed. An address is a 160-bit integer;
//! every address here fits in 64 bits.

use vstd::prelude::*;

verus! {

/// The address of `EXT5_MUL`.
pub const EXT5_MUL_ADDRESS: u64 = 0x0a01;

/// The address of `EXT5_SQUARE`.
pub const EXT5_SQUARE_ADDRESS: u64 = 0x0a02;

/// The address of `EXT5_ADD`.
pub const EXT5_ADD_ADDRESS: u64 = 0x0a03;

/// The address of `EXT5_SUB`.
pub const EXT5_SUB_ADDRESS: u64 = 0x0a04;

/// The address of `EXT5_MUL_BASE`.
pub const EXT5_MUL_BASE_ADDRESS: u64 = 0x0a05;

/// The address of `EXT5_MUL_BATCH`.
pub const EXT5_MUL_BATCH_ADDRESS: u64 = 0x0a06;

/// The address of `EXT5_SQUARE_BATCH`.
pub const EXT5_SQUARE_BATCH_ADDRESS: u64 = 0x0a07;

/// The address of `EXT5_MUL_BASE_BATCH`.
pub const EXT5_MUL_BASE_BATCH_ADDRESS: u64 = 0x0a08;

/// The address of `EXTFIELD_MAC`.
pub const EXTFIELD_MAC_ADDRESS: u64 = 0x0a10;

/// The address of `EXTFIELD_LIN_PROD`.
pub const EXTFIELD_LIN_PROD_ADDRESS: u64 = 0x0a11;

/// The address of `EXT8_MUL`.
pub const EXT8_MUL_ADDRESS: u64 = 0x0b01;

/// The address of `EXT8_SQUARE`.
pub const EXT8_SQUARE_ADDRESS: u64 = 0x0b02;

/// The address of `EXT8_ADD`.
pub const EXT8_ADD_ADDRESS: u64 = 0x0b03;

/// The address of `EXT8_SUB`.
pub const EXT8_SUB_ADDRESS: u64 = 0x0b04;

/// The address of `EXT8_MUL_BASE`.
pub const EXT8_MUL_BASE_ADDRESS: u64 = 0x0b05;

/// The address of `EXT8_MUL_BATCH`.
pub const EXT8_MUL_BATCH_ADDRESS: u64 = 0x0b06;

/// The address of `EXT8_SQUARE_BATCH`.
pub const EXT8_SQUARE_BATCH_ADDRESS: u64 = 0x0b07;

/// The address of `EXT8_MUL_BASE_BATCH`.
pub const EXT8_MUL_BASE_BATCH_ADDRESS: u64 = 0x0b08;

/// The address of `NOOP_64_TO_32`.
pub const NOOP_64_TO_32_ADDRESS: u64 = 0x0af0;

/// The address of `NOOP_32_TO_32`.
pub const NOOP_32_TO_32_ADDRESS: u64 = 0x0af1;

/// The address of `NOOP_BATCH_64_TO_32`.
pub const NOOP_BATCH_64_TO_32_ADDRESS: u64 = 0x0af2;

/// The address of `NOOP_BATCH_32_TO_32`.
pub const NOOP_BATCH_32_TO_32_ADDRESS: u64 = 0x0af3;

/// The address of `NOOP_EXTFIELD_MAC`.
pub const NOOP_EXTFIELD_MAC_ADDRESS: u64 = 0x0af4;

/// The address of `NOOP_EXTFIELD_LIN_PROD`.
pub const NOOP_EXTFIELD_LIN_PROD_ADDRESS: u64 = 0x0af5;

} // verus!
