# Log Inbox

Log Inbox turns selected engineering activity into reviewed daily records in an
existing Markdown workspace. This project holds its rules as a library that is
verified with Verus, and the service around it.

- `src/` is the library: what is done with events, notes, drafts, days and files,
  with contracts that say exactly what each function returns. Modules whose names
  end in `_laws`, and functions whose names begin with `law_`, state what holds
  across functions: that an Apply changes nothing but its own block, that a draft
  uses every event once, that a model's text brings in no Markdown, that a
  mapping which is broken gives no link.
- `tests/` runs the library on concrete values.
- `app/` is the service: HTTP, the store, files and the model. It reads and
  writes, and leaves the decisions to the library.

What is taken from other crates stands in `src/` behind small functions marked
`#[verifier::external_body]`, each with a comment that says what is claimed of
the call: SHA-256, JSON, YAML, regular expressions, URLs, dates and time zones.
