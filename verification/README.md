# projkit

Helpers for project scaffolding tools, verified with Verus.

- `author`: parse `Name <email>` author strings and write them back.
- `license`: resolve SPDX license expressions to license names, URLs and texts
  (through the `spdx` and `license` crates).
- `gitignore`: decide what a `.gitignore` must hold so that it lists given entries.
- `toml`: the errors of reading and writing TOML documents, pointing into the text.
- `lib.rs`: errors for file-system failures that record the path concerned.
- `text`: the character-level model (whitespace, trimming, searching, UTF-8 length)
  the other modules are specified with.

`app/` holds the file-system functions, which do the I/O and call the library,
the generic TOML reader and writer (`app/toml.rs`), and copies of the library types that carry `serde`, `thiserror` and `miette` derives.
