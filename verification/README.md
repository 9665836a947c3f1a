# verbose

The library side of a DSD music player, verified with Verus.

- `src/path.rs` — Unix path components (`std::path::Path::components` rules), file
  names, parent names and path equality.
- `src/text.rs` — characters of strings, strings from characters, suffix tests,
  whitespace trimming.
- `src/dsdiff.rs` — the DSDIFF (`.dff`) metadata reader: native `DIIN` text tags and
  the raw `ID3 ` chunk, read from the file's bytes.
- `src/id3_tag.rs` — the ID3 fields a track is built from, read with the `id3` crate.
- `src/track.rs` — `Track` and how it is built: from an ID3 tag, from GStreamer's
  discovery, or empty.
- `src/indexed_fs.rs` — the index of files and directories with their change dates,
  built from snapshots of the disk, and when an indexed element needs a recheck.
- `src/library_parser.rs` — lookups of the directory index.

`app/` holds the program around it: the window, and the disk, clock, DSF-reader and
GStreamer I/O whose results the library takes as plain values.
