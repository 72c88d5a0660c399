# watermark_studio

The verified core of a batch watermarking tool for photographers: a signature
image placed on each photo on a nine-cell grid, an optional line of shooting
parameters, an optional frame with a parameter bar, padding to an aspect
ratio, export as JPEG/PNG/WebP with the photo's EXIF block and ICC profile
written back, presets, and a folder watcher.

Layout:

- `src/` — the library, verified with Verus. Placement arithmetic
  (`position`), templates and tag tables (`template`, `tags`, `exif_text`,
  `frame`), pixel buffers (`pixels`, `canvas_expand`), the `image` and
  `img_parts` boundaries (`codec`, `metadata`), the pipeline steps
  (`watermark`, `batch`, `export`), presets (`preset`), folder-watch
  bookkeeping (`watch`) and command checks (`commands`).
- `tests/` — tests of the library through its public interface.
- `app/` — the shell around it: serde copies of the configuration types, the
  floating-point steps (size and opacity ratios, glyph rendering), file I/O,
  the parallel batch run and the `notify` watcher.
