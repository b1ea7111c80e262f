# blitz

A voxel sandbox ("Playground") drawn with Vulkan, whose rules are a library
verified with Verus.

- `src/` — the verified library: the free-list suballocator and the vertex,
  index and staging buffers built on it; blocks, chunks, terrain generation
  and the greedy chunk mesher; the world's block edits and dirty-chunk
  tracking; input bindings and per-tick input state; the menu's UI tree,
  the screens it is built of, screen state machine, hovering, clicking,
  slider dragging, hit testing and the order and quad offsets it is drawn
  with; PNG texture
  decoding (through the `png` crate) and pixel conversion; the font atlas
  packer; and the renderer's decisions (device suitability, queue families,
  surface format, present mode, extent, image count, depth format, layout
  transitions, frame pacing settings, vertex layouts).
- `tests/` — tests of the library on concrete values.
- `app/` — the program: the winit event loop, the Vulkan renderer, the
  camera, the sun, terrain heights, chunk vertex positions, block picking,
  menu geometry (each node's rectangle and colours, and which rectangles
  hold the pointer) and the font's texture coordinates. These use floating point
  or perform I/O, and call into the library for every decision.

The program reads its shaders from `shaders/*.spv`, its tile textures from
`app/img/tiles/` and its font from `app/font/consolas.ttf`, relative to the
working directory.
