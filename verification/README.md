# senate_efd

Reads the electronic financial disclosures of the United States Senate and decides, step by step,
which request a collector has to make next.

- `src/` is the library, verified with Verus. It does no input or output. Texts are modelled as
  sequences of characters; each function is specified by a spec function over them, and
  `src/laws/` states what holds of several functions together.
- `app/` makes the requests with `reqwest` and decodes the JSON answers with `serde`.
- `tests/` runs the library on concrete values and against the standard library.

The one trusted item is the specification of `String::push` in `src/text.rs`.
