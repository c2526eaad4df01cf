# rfitsio

Reading and writing FITS files (the astronomy data format), verified with
Verus: header records, data units padded to 2880-byte blocks, big-endian
sample encoding, a reader for whole files, binary-table columns, and what an
image viewer reads from a header.

## Layout

- `src/` — the library, every function with a contract proved by Verus.
  - `lib.rs` — block padding, `FITSFile`, and the laws on whole blocks.
  - `endian.rs` — big-endian integer samples, with encode/decode laws.
  - `hdu/` — header records (`headers.rs`), data units (`data.rs`),
    HDUs (`mod.rs`) and binary tables (`bintable.rs`).
  - `headers.rs` — records built from plain strings.
  - `parsing/` — `parse_bytes`, and the law that reading what was written
    gives back the records and data.
  - `inspect.rs` — image geometry, Bayer pattern and descriptive keywords.
  - `text.rs` — UTF-8 decoding, trimming and integer grammar.
- `tests/` — tests of the library.
- `app/` — the command line and the image viewer: file I/O, floating-point
  pixels and header values, and the window (eframe).
