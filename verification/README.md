# tg_rcore_graphics

The graphics and game logic of a small teaching kernel's VirtIO demos, as a
Verus library.

- `src/` is the verified library: pixel drawing on a BGRA framebuffer
  (`raster`, `color`), the tangram picture (`tangram`), the snake, Tetris,
  pingpong, breakout and pacman games (`snake`, `tetris`, `pingpong`,
  `breakout`, `pacman`), the byte layout of the frame records that the user
  programs send to the kernel (`wire`, and `frame_bytes`/`parse_*_frame` in
  each game and screen module), the pictures the kernel draws from those
  records (`*_screen`), the keyboard latch (`keyboard`), the DMA page
  allocator (`dma`), console text (`text`) and busy waiting (`spin`).
  Drawing functions are specified as layers of regions painted in order
  (`raster::paint_layers`); game steps are specified field by field.
- `app/` is the unverified glue: the VirtIO GPU and keyboard devices, the
  console, raw user buffers, and the user programs' loops, which wait, read
  keys and write frames while the library decides what happens.
- `tests/` runs the library on concrete values.
