# verdant

A rendering and windowing library in the spirit of Processing: windows, canvases, shapes,
images and text, drawn with `wgpu` in windows opened with `winit`.

The crate is split in two.

- `src/` is the core, written in Verus and verified: RGBA8 pixel buffers, decoded from image
  files with the `image` crate, with their changed regions and texture uploads, the glyph
  atlas and the glyph cache on top of it, draw-call batching, the order in which a canvas
  flush composites its child canvases, vertex buffer growth, the least-recently-used text
  layout cache, the bookkeeping of windows (their creation queue, ids and events), window
  properties, and the choices of surface format, blending mode and fallback font. Each
  public function states what it returns and changes; the laws that tie operations
  together (a read gives back what a blit wrote, packed glyphs keep their texels and never
  overlap, batches cover the queued vertices without gaps, the cache evicts exactly the
  least recently used entries, a new window id is fresh) are proof functions next to them.
- `app/` is ordinary Rust around the core: the GPU renderer and shader, the event loop and
  event conversion, font rasterization with `fontdue`, reading files, and everything
  measured in floating point (vectors, transforms, views, text layout, shape geometry and
  intersection tests).

`tests/` exercises the core on concrete values.
