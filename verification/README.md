# skeg-cli

Operator tools for skeg, a vector and key-value server: `build` (offline Vamana
index builder), `inspect` (data directory introspection) and `stats` (RESP3
client for live server counters).

- `src/` is the library, verified with Verus: the dataset formats, the registry
  format, the reports, the conversation with a server, and the command line.
  Each module states what it computes over mathematical models; `dataset_laws`
  and `stats_laws` hold what follows of several functions together.
- `app/` is the program around it: files, connections and the index itself,
  which works on floating-point vectors.
- `tests/` run the library.

What the proofs rest on besides Verus and `vstd` are the contracts of a few
functions marked `#[verifier::external_body]`, each around one call of the
standard library or of `skeg_resp3`.
