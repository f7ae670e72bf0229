# ProofFrame

Data contracts over columnar tables, with every rule stated and proved in Verus.

The library in `src/` takes plain tables (`value.rs`) and gives back verdicts, fingerprints,
differences and signed evidence. It reads no files and no clock, and holds no floating-point
arithmetic: floats are bit patterns, and what only floating-point arithmetic can compute is
handed in.

| Module | What it holds |
| --- | --- |
| `value`, `text`, `bytes`, `numbers` | tables, texts, little-endian integers, exact float order |
| `encoding`, `fingerprint`, `tracking` | canonical bytes of values, dataset fingerprints, what they tell apart |
| `contract` | contract documents, their compilation against a schema, plan digests |
| `execution` | column, row, dataset and reference rules over batches; reports; partitions |
| `distinct` | exact distinct state with sorted runs and merging |
| `resource`, `reservations` | hierarchical hard limits, and what holds of them over time |
| `diff` | keyed comparison through checksummed partitions |
| `pii`, `leakage`, `profile` | personal data, shared rows, profiles |
| `canonical`, `evidence`, `receipt` | canonical JSON digests, evidence envelopes, Ed25519 receipts |
| `review`, `surface` | rendered reports, CSV tables, and what host languages and pages ask for |

What is computed by the crates `blake3`, `base64`, `chrono`, `ed25519-dalek`, `getrandom`,
`regex`, `arrow`, `serde_json` and `serde_json_canonicalizer` stands behind small functions marked
`external_body`; their doc comments say what is taken on trust.

`app/` is ordinary Rust around the library: Arrow readers, JSON documents, temporary files
and floating-point measurements. `tests/` runs the library on concrete values.
