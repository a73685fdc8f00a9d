# jepa_dual

A dual-database JEPA: perception vectors and prediction vectors live in two
separate stores, and relevance between them comes from a comparison method.

- `src/` — the verified library (Verus): the vector stores and their id index
  (`db`), ranking of scored entries (`ranking`), ranking keys for scores given
  as IEEE-754 bit patterns (`score`), the deterministic xorshift generator
  (`rng`), fresh version-4 ids (`ids`), and the identity-initialised
  comparison methods (`method`).
- `app/` — the floating-point side: vector maths, relevance scores, training,
  analysis metrics, and the serde-enabled types.
- `tests/` — tests of the library.
