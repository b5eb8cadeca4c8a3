# raycaster

The drawing and maze logic of a small first-person maze game, verified with Verus.

- `src/framebuffer.rs`: the pixel grid (`Framebuffer`): creation, clearing,
  single-pixel drawing with a pen colour, and placement of glyph pixels.
- `src/render.rs`: the pixel passes of the game: filled rectangles, map cells,
  the top-down maze map, the minimap backdrop, the ceiling and floor of the
  first-person view, wall columns, sprite texels, and the wall colour rules.
- `src/maze.rs`: the maze grid: which cells are walkable, where the goal is,
  and the switch between the map view and the first-person view.
- `app/`: the program around the library: window and input (minifb), sound
  (rodio), text layout (rusttype), and the floating-point geometry of rays,
  sprites and the player (nalgebra-glm).
