# serde_with

Custom de/serialization helpers for serde: the `with` modules and the
`serde_as` adapter types (`Hex`, `NoneAsEmptyString`, `StringWithSeparator`,
`DurationSeconds`, the duplicate-checking set and map readers, timestamps
read from any number, and more).

The crate is written in Verus.

- `src/` is the verified library. It holds the value logic of every helper,
  with contracts over mathematical models (`Seq`, `Set`, `Map`, integers):
  - `strings`: joining and splitting strings, with the laws that relate them;
  - `number`: decimal parsing as `from_str_radix` does it, and formatting;
  - `hex`: hex encoding and decoding, and their round trips;
  - `duplicate_key_impls` and `rust`: sets and maps read from sequences, with a
    duplicate being an error, or the first entry winning;
  - `de`, `ser`, `utils`: arrays filled from elements, and durations read from
    and written as seconds;
  - `chrono`: chrono durations and timestamps;
  - `flatten_maybe`: the choice between a flattened and a nested field.
- `app/` is the serde side: the `SerializeAs` and `DeserializeAs` traits, their
  impls for std and chrono types, the serde visitors, and what works on
  floating point. It calls the library for every decision it makes.
- `tests/` runs the library on concrete values.
