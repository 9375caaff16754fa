# eightmb

Reading PlayStation 2 memory card images (standard 8 MB cards): the
superblock, the file allocation table, directories, and the save files kept
in them (`icon.sys` and the 3D save icons).

The library in `src/` is written in Verus; every function carries a contract
that Verus proves, over a byte-level model of the card format:

- `reader`: a byte cursor with `read_exact` semantics.
- `util`: little-endian readers, file name checks, Shift-JIS and UTF-8 text.
- `memcard`: the card image (`MemoryCard`), its pages and blocks, the
  superblock, the FAT (on the image and read into memory), directory
  entries and timestamps, `icon.sys`, save icons, and the preview of a save
  directory.

`app/` is a small command-line front end (listing, dumping and previewing a
card image) around the library; `tests/` exercises the library on
synthetic card images.
