# imgrids

Immediate-mode text grids for small screens: pixel formats, glyph atlases
(bitmap, fontdue and ab_glyph TrueType, baked `.font` files, shapes), a
weighted row/column layout, and drawing back ends (memory buffer, shadow
buffer with dirty rectangle, browser canvas buffer).

Layout:

- `src/` — the library, verified with Verus. Each operation states its
  result in `ensures` over spec functions; the laws of the library (pixel
  round trips, layout tiling and proportional shares, fill locality, dirty
  rectangle coverage, FIFO key queue, touch gestures, glyph planning, blit
  end positions) are public proof functions next to the code they speak of.
- `tests/` — tests of the library on concrete values.
- `app/` — the parts that talk to the machine: Linux framebuffer and touch
  input, SDL2 window, emscripten canvas, font files, and the float
  rasterisation passes of the font crates. They hand plain values to the
  library and take plain values back.
