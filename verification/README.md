# wz

A library for WZ archives, the package files of a well-known 2D online game, written in
Verus. Verus proves every function of `src/` free of overflow and panics, and each function
with a contract (every public one, and most private ones) against that contract.

## Layout

- `src/archive/`: archives. Offsets (`offset.rs`), headers (`header.rs`), package contents
  (`package/`), reading and mapping an archive held in memory (`reader.rs`, `mod.rs`), and
  building and writing one (`builder.rs`, `writer.rs`). `readback.rs` and `subtree.rs` hold
  the proofs that what the builder writes maps back to the tree it was given, and that the
  breadth-first traversals list every node once.
- `src/decode/`, `src/encode/`, `src/types.rs`: the primitive encodings (compressed
  integers, masked and encrypted strings, floats by their bits) and the in-memory decoder
  and encoder; `src/roundtrip.rs` proves that decoding gives back what encoding wrote.
- `src/cipher.rs`: the key stream and the version checksum.
- `src/file/`: file contents, metadata, and image data: property lists and objects
  (`image/raw/`), the parsed image tree (`image/mapped.rs`), UOLs, vectors, sounds and
  canvases with their pixel formats (`image/canvas/`).
- `src/error/`: the error types and their displayed texts.
- `tests/`: tests on concrete values.
- `app/`: the file side: opening and writing archive files, file-backed builder images, and
  conversions to the `image` crate's types.

Calls into `ego_tree`, `inflate`, `squish`, `image` and a few standard library functions
stand behind trusted wrappers, each with a doc comment saying what it claims.
