# apidock

The core of an offline API workbench (teams → projects → groups →
interfaces, environments and variables, sending requests, assertions,
OpenAPI / Postman import and OpenAPI export), written in Verus: the
functions under `src/` state what they return in `requires` / `ensures`
contracts that Verus proves, apart from the trusted wrappers around outside
crates described below.

## Layout

- `src/` — the verified library.
  - `domain.rs`: the data model, key sanitising and name validation.
  - `examples.rs`: the example payload of a JSON structure tree.
  - `text.rs`, `json.rs`, `jsonc.rs`: characters, JSON values, JSON with
    comments.
  - `variables.rs`: `{{name}}` templates and variable precedence.
  - `http.rs`: planning a request (variables, headers, auth, query, body,
    options) and reading a response back.
  - `assertions.rs`, `jsonpath.rs`, `runner.rs`: checks on responses, the
    JSONPath subset they use, and run reports.
  - `openapi.rs`, `schemas.rs`, `import_openapi.rs`, `imports.rs`: reading
    OpenAPI and Postman documents into interfaces.
  - `export.rs`: building OpenAPI documents from interfaces.
  - `repo.rs`, `tree.rs`, `commands.rs`: ordering, moving, tree building,
    group paths and history records of the stored data.
  - `storage.rs`, `legacy.rs`: helpers of the older file-based store.
- `tests/` — tests of the library on concrete values.
- `app/` — the unverified shell: the SQLite store (sea-orm), HTTP exchange
  (reqwest), file access and the command layer, calling into the library.

Calls into outside crates (`serde_json`, `serde_yaml_ng`, `openapiv3`,
`regex-lite`, `uuid`, `serde_urlencoded`, `mime_guess`) sit behind small trusted wrappers
whose contracts name or state what the crate returns (the converters
between `serde_json` / `openapiv3` values and the library's own types state
nothing; of a random UUID only its version 4 text form is stated); each
wrapper's doc comment says what it claims.
