# shellitem

Decodes a Windows `ITEMIDLIST` (PIDL) blob into typed shell items and a
reconstructed path, with every function verified by Verus against an exact
specification.

- `src/parse.rs` — framing (`parse_idlist`), per-class decoding, path
  reconstruction, and the laws of the framing (prefix stability, raw bytes
  tiling the input, progress).
- `src/reader.rs` — bounds-checked little-endian readers, NUL-terminated
  single-byte and UTF-16 strings, GUID text.
- `src/dosdate.rs` — FAT date/time to Unix epoch seconds.
- `src/knowledge.rs` — the class bytes, masks, GUID and signature read from
  `forensicnomicon::shellbags`.
- `src/lib.rs` — `ShellItem`, `ShellItemKind` and their mathematical view.
