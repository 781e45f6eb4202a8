# oil

Reading and writing OIL files, the intermediate scene representation that
Overkill's exporters write, with the reading and writing proved correct by Verus.

A file is the magic `FORM`, a little-endian `u32` size, and a run of sections;
each section is a `u32` type code, a `u32` length and that many bytes, which
hold one chunk (scene information, a material, a node, a mesh, a light, a
camera, key events). The size counts every byte but a second copy of itself
that ends the file; reading passes over fewer than eight bytes at the end (that
trailing size), so a last section with no data is still a section.

Inside chunks, integers are little-endian, a string is a `u32` byte count and
that many bytes of UTF-8, a list is a `u32` count and its items, a flag is one
byte, and an enumeration is a `u32`. A failed read says why and how far it got. `f64` values are held as their bit
patterns (`u64`) by the library.

- `src/wire.rs`: the `Wire` trait (a value's meaning, its encoding, what reading
  gives, a reader and a writer) and its instances for integers, flags, strings,
  lists and pairs, with the proof that reading what was written gives it back.
- `src/geometry.rs`, `src/scene.rs`: the chunks' types.
- `src/chunk.rs`: chunk kinds, and reading a section's bytes as a chunk.
- `src/sections.rs`: splitting a file into sections, writing chunks as a file
  (lengths are filled in after the data), listing sections, and the proof that
  a written file reads back as the chunks it was written from.
- `src/document.rs`: a scene as a tree of objects kept in a `slotmap::SlotMap`.
- `app/lib.rs`: files and printing, and the conversion of bit patterns to `f64`
  and `vek` types.
