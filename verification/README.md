# wanxiang_installer

The logic of an installer for the Wanxiang (万象) Rime schema, verified with Verus.

- `src/` is the verified library: reading the YAML files of a Rime user
  directory, detecting the installed edition and its configuration, rewriting
  the custom files for a new configuration, reading the breaking changes of a
  CHANGELOG between two versions, choosing release assets and checking their
  SHA-256 digests, and the decisions of the interactive menu.
- `app/` is the program around it: prompts, file system, GitHub and HTTP
  access, archive extraction.
- `tests/` runs the library on concrete inputs.

The `regex`, `semver`, `saphyr`, `sha2` and `chrono` crates are called from
the library through small trusted wrappers whose contracts name their results.

## How the library models its inputs

- A YAML document is converted, node by node, from what `saphyr` loads into
  the library's own `YamlNode`. A mapping becomes the list of its entries, in
  the loader's order and with the loader's (unique) keys; a key is found as the
  first entry whose key equals it, scalars comparing as `saphyr` compares them
  (floating-point keys by value, so `0.0` and `-0.0` are one key).
- Rewriting a custom file replaces each algebra reference that the scan finds,
  from the end of the file backwards, on the bytes that the reference spanned
  in the file as read, as `String::replace_range` does. A reference that the
  loader gives twice (through an alias) is replaced twice. Where a replacement
  would cut a character or lie outside the text, on which inputs the byte
  indexing or `replace_range` panics, `rewrite` answers `EditOutOfPlace`.
- `rewrite_values` and `changelog::Scan::step` take what the outside calls
  return (the scalar values of the document, what a heading says), so their
  contracts can be checked on given values.
