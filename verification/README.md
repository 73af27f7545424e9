# extfield_precompiles

EVM precompiles for arithmetic over two extensions of the KoalaBear prime
field (`p = 2^31 - 2^24 + 1`): the quintic extension `F[X] / (X^5 + X^2 - 1)`
and the octic extension `F[X] / (X^8 - 3)`, with elements packed into 32-byte
words. Besides single and batched mul / square / add / sub / mul-by-base
precompiles there are two multi-field precompiles, `EXTFIELD_MAC`
(multiply-accumulate) and `EXTFIELD_LIN_PROD` (product of linear terms), a
family of no-op precompiles for measuring call overhead, a gas model that
prices measured runtimes, and deterministic test-vector generators.

## Layout

- `src/` — the library, verified with Verus:
  - `field.rs`: the field elements; arithmetic is done by `p3-field` /
    `p3-koala-bear`, whose results are stated as polynomial arithmetic.
  - `codec.rs`: packed 32-byte words, hex words and 256-bit integers.
  - `precompile.rs`: call-data readers, failures and the shared
    arithmetic / no-op precompile semantics.
  - `ext5/`, `ext8/`: the two precompile families, their gas schedules,
    the `EXTFIELD_MAC` / `EXTFIELD_LIN_PROD` evaluators and the vector
    generators.
  - `gas_model.rs`: pricing of runtimes and the multi-field gas schedules.
  - `addresses.rs`: the precompile addresses.
  - `laws.rs`: properties that span several functions.
- `tests/` — tests of the library on concrete values.
- `app/` — what runs around the library: benchmarking and calibration,
  schedule and vector files, the adapters that serve the precompiles to an
  EVM, and the local node.
