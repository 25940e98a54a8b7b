# xtask_core

The rules behind the repository's maintenance tasks for agent wrappers, written in Verus
and proved against their contracts.

- `src/` is the verified library. It covers the agent registry and its validation, approval
  artifacts, capability projection and publication, the support-surface audit and its
  target-scoped debt authorizations, the stand-down guard, the release watch, onboarding
  drafts and previews, proving-run closeouts, publication preparation, the CLI manifest union
  and filters, the coverage report built from a union and the wrapper's coverage, and the
  Codex validation findings.
- Outside crates are reached only through small trusted wrappers: `toml_edit` and
  `serde_json` for parsing, `sha2` and `hex` for digests, `semver` for versions, and `time`
  for RFC 3339 timestamps. Each wrapper's doc comment says what its contract claims.
- `tests/` exercises the library with concrete values.
- `app/` is a small command-line front end over two of the library's checks. It reads the
  files and writes the output; the checks it runs decide in the library. Most tasks have no
  front end here: they are library functions that take what was read as values.
