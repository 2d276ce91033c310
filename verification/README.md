# gas_api_json

Turns the JSON definitions of the Google Apps Script services into WIT
(WebAssembly Interface Type) text, with the conversion verified by Verus.

- `src/json_struct.rs` — the service definitions (services, classes, methods, types).
- `src/wit.rs` — types, parameters and methods to WIT; names, package and `use` lines.
- `src/wit_resolver.rs` — where a type is defined among the services.
- `src/wit_def.rs` — the WIT file of a service, and its text with names as they stand.
- `src/wit_def_stringify.rs` — the text of a WIT file with names in kebab case.
- `src/casing.rs` — kebab case, by the `convert_case` crate.
- `src/text.rs` — text helpers.
- `app/` — reading the JSON files (serde, serde_json).
