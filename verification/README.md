# generation

Procedural map generation on boolean tile grids, and the state logic of a
level editor, written in Verus with their contracts proved.

- `src/freeform`: seed shapes (squares, crosses, discs, diamonds, regular
  grids, random points), Bresenham lines, the brush of a random walk,
  cellular-automaton smoothing and diffusion-limited aggregation.
- `src/post/flood.rs`: breadth-first walking distances from a start tile.
- `src/tileset`: chunk templates with edge connectors, and the choice of a
  chunk whose connectors match its neighbours'.
- `src/editor`: selection, the transform gizmo's modes, dialogs, the scene
  file and autosave settings, the hierarchy panel's rows, the inspector's
  view of the selection, the asset browser's search and folder tree,
  placement mode, duplication, group names, the player's spawn point, and
  reading hexadecimal colours.
- `src/grid.rs`, `src/random.rs`: the grid model shared by the generators,
  and the random draws they make through the `rand` crate.

`app/main.rs` renders sixteen cave maps and their distance pictures with the
library, saving PNG files through the `image` crate; it holds the parts that
steer by floating-point angles and do file I/O.
