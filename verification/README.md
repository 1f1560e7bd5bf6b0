# flutter_rust_api_translate

Translates the `impl Trait` parameters of a flutter_rust_bridge API into enums, as a
library verified with Verus.

- `src/` holds the verified library. The crate's source files are modelled as plain
  values (`syntax`), so that module resolution (`module_info`, `crate_info`), the
  reading of the API's `impl Trait` types (`rust_input`), the intersection of the
  traits' implementors (`intersection`), the generated texts (`generate`,
  `translate`, `dart`) and the edits of the root file (`run`, `file`) are all
  functions with contracts. Parsing source text is done by `syn` (`parse`, over the
  `syn` types declared in `syn_types`) and case conversion by `convert_case` (`case`),
  each behind a trusted wrapper.
- `app/` finds the crate with `cargo_metadata`, reads its files, hands the library
  their texts, writes the files it returns, and runs the bridge generator.
- `tests/` runs the library on concrete inputs.
