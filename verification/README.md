# mptrsz

Measures the true size of the Windows mouse pointer: the smallest box that
holds the pixels the pointer actually draws, not the nominal bitmap that
contains it.

`src/` is the library, verified with Verus:

- `bitmap` measures a cursor from the bitmaps `GetIconInfo` returns
  (monochrome AND/XOR masks, colour bitmaps with or without α) and stretches
  the box for the Accessibility pointer size;
- `shape` measures the pointer shape captured by DXGI desktop duplication;
- `extent` is the walk both use, with the laws that make its box tight and unique;
- `drawing` draws the masks, colour bitmaps and captured shapes as text, a
  glyph per pixel and a numbered line per scan line;
- `scale`, `geometry`, `pixel`, `bits`, `text`, `kinds`, `error`, `ffi` and
  `rows` hold the stretch, box moves, pixel classes, bit access (through
  `bitvec`), text, error messages, the DLL's result layout and the command
  line's row list.

`app/` reads the bitmaps, the registry and the screen capture (Windows APIs),
exports the DLL functions and runs the command line.
