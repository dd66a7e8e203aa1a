# Geodata editor

The verified core of a native editor for Lineage II geodata (`.l2j`, `.l2g` and
`_conv.dat` files), and the program around it.

`src/` is a Verus library. It holds what the editor decides and computes:

- `l2j/`: blocks, their encodings and storage formats, the editable document
  with undo and redo, edits of masks, heights and formats, and export;
- `selection`, `line`, `heap`, `route`, `picking`: what brushes, lines, blocks,
  rectangles and routes along walkable strips select;
- `overlay`, `overlay_cells`, `overlay_cache`, `chunks`: what is drawn of a
  document, and which parts of it have to be drawn again;
- `session`, `input`, `project`, `panel`, `status`, `ui`, `navigation`: the
  state of the editor, what keys and clicks change, how a project is opened,
  and what is said about it;
- `editor`, `path`, `text`, `error`: settings, the command line, file names,
  texts and errors;
- `icons`, `scene`, `upload`: the picture of all glyphs, the plan of a textured
  scene, and upload budgets;
- `update`: which release is offered, and whether a download is what it should
  be;
- `unreal/`: the reader of client packages and the collision geometry of a map.

Files named `*_laws.rs` state what holds over several functions.

`tests/` runs the library on concrete values. `app/` is the program: windows,
drawing, files, threads and the network, and what is computed in floating point.
