# rc_renderer

The verified core of an RC-flight renderer, written in Verus.

`src/` is the library. Its functions carry contracts that Verus proves; the
few calls into outside crates (image decoding, glTF sampler fields) go
through small wrappers whose contracts are trusted and say so in their doc
comments:

- `render_graph` — declaration, validation and deterministic (Kahn, lowest
  declaration index first) scheduling of the frame's render passes.
- `texture` — image decoding through the `image` crate, copy-row padding and
  staging-buffer layout, glTF sampler mapping.
- `profiling` — timestamp-query arithmetic and the readback-ring decisions.
- `renderer_v2::{atmosphere, scene, temporal}` — the physical environment
  resource plan, the instanced GPU scene plan, and the temporal presentation
  history state machine.
- `vegetation`, `vegetation_assets` — debug modes, the seeded random source
  that placement draws from, the per-instance visibility decision with LOD
  hysteresis, per-frame visibility counters, the stable batch grouping,
  LOD geometry assembly and the GLB container.
- `photo_field`, `terrain_textures`, `scenery`, `surfaces`, `shadow`, `pose`,
  `visual_audit` — panorama mip chain and proxy baking, terrain texture
  integer core, scenery mesh merging and hashing, articulated-surface slots,
  shadow configuration, pose errors and the runtime audit decisions.

`tests/` exercises the library on concrete values. `app/` holds what the
library cannot: `wgpu` descriptors and format mappings, `serde` documents,
and the floating-point policies that sit around the library's decisions
(sRGB filtering of the panorama mips, LOD distances, value noise for the
terrain textures, the atmosphere model, placement jitter). The renderer's
mesh generators, frustum culling and device setup are not part of this
crate.
