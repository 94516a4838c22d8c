# pixel_art_editor

A pixel-art editor whose picture model is verified with Verus.

- `src/` is the verified library: colours, pixel grids, the brush square
  and the flood fill, layers, drawing tools, canvas templates, the editor
  state, and PNG export through the `png` crate.
- `app/` is the desktop program around it (eframe/egui): the window, the
  panels and dialogs, zoom and pan, the colour wheel, and writing files.
- `tests/` exercises the library.
