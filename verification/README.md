# jsonguard

Output sanitization and input inspection for JSON/JSONL, CSV, TSV and display
contexts, written in Verus with every function of the library proved against
its contract.

- `src/text.rs`: the sanitizers (`display_safe`, `cap_display`, `tsv_safe`,
  `csv_field`, `jsonl_safe`, `bytes_to_utf8_lossy_safe`) and the spec functions
  that say what each returns.
- `src/inspect.rs`: `inspect`, which reports formula lead-ins, bidi and control
  characters, and invalid UTF-8 sequences with their byte offsets.
- `src/types.rs`: `Guarded`, `DecodedStr`, `Violation`, `Findings` and its verdicts.
- `src/guard_input.rs`: the sealed `GuardInput` trait over `&str`, `&String`,
  `&[u8]` and `&[u8; N]`.
- `src/serde_safe.rs`: `JsonSafe`, the text a serde serializer should emit.
- `src/chars.rs`: the character classes.
- `src/utf8.rs`, `src/strings.rs`: the calls into `std` (lossy decoding, UTF-8
  validation, `String::push`, `String::len`) with their trusted contracts.
- `src/laws.rs`, `src/json_laws.rs`, `src/inspect_laws.rs`: the proved
  properties of the library as a whole.
- `app/lib.rs`: `serde::Serialize` for `JsonSafe` and `Display` for the results.
