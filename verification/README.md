# reli

A reliability marketplace for noisy-data workflows: requesters post jobs,
workers decode inputs off-chain and submit signed, committed results,
verifiers and challengers check them, and a contract-facing lifecycle
finalizes, settles and records every step as an event.

The library under `src/` is written in Verus. Its functions carry
contracts that Verus proves, except for a few trusted items that call
outside crates and whose contracts are believed, not proved:

- `base::attestation::sha256_digest` calls `sha2`; its result is named
  `sha256` of the input bytes.
- `base::validation::json_syntax_error`, `compile_json_schema` and
  `schema_error_messages` call `serde_json` and `jsonschema`; their outcomes
  are named `json_parse_error`, `schema_compile_error` and
  `schema_messages` of the JSON texts. The validator follows `$ref`
  without bound (a cycle such as `{"$ref": "#"}` overflows the stack), so
  the library refuses, before validating, every schema whose text holds
  `$ref` or a `\u` escape, with the issue
  `unsupported schema: $ref is not followed`.

Modules:

- `base`: hash references and signatures (`attestation`, SHA-256 via the
  `sha2` crate), a JSON document tree (`json`), backward compatibility of
  object schemas (`schema_compat`), and validation outcomes, sample records,
  JSON Schema validation via the `jsonschema` crate and the phase-0 summary
  (`validation`).
- `algorithms`: the decoder interface, the built-in decoders and the
  registry that dispatches by profile; soft evidence is written as JSON.
- `worker`: worker-side lifecycle sessions, execution reports and the worker
  engine that packages signed submissions.
- `verifiers`: submission, attestation, evidence, record and challenge
  checks.
- `contracts`: the job lifecycle (commit/reveal, verification, challenges
  and slashing, finalization, settlement with the penalty for committing
  without revealing), its event log and replay.
- `sdk`: a requester's job book and a client over the lifecycle.
- `registry`, `governance`, `launch`, `benchmarks`: metric profiles and
  their compatibility, parameter governance with activation delays and
  rollback, the launch-readiness assessment, benchmark row selection.
- `keyed`, `text`: string-keyed tables, sorting, and text rendering.

Scores and other `f64` quantities are carried as IEEE-754 bit patterns; the
floating-point formulas (scoring, payout shares, pilot KPIs, benchmark
rates) live in `app/`, which also reads files, turns JSON text into values
with `serde_json` where a tree is needed, and provides the
`validate_phase0` command line.
