# lvl_core

The bookkeeping and decision logic of the `lvl` engine core, written in Verus
with its contracts proved.

- `src/scene/hierarchy` — object identifiers and their allocator, the scene
  hierarchy (objects in pre-order with spans, parent lists, dirty and active
  flags, names), sibling walks, active-state transitions, event receivers and
  controller bookkeeping, the removal of an object tree from all of them
  (`scene.rs`), and what each scene action does to them and which controller
  calls it is owed (`scene_action.rs`). The hierarchy's well-formedness is proved to survive every
  operation (`hierarchy_model.rs`, `hierarchy_lemmas.rs`, `reparent_lemmas.rs`,
  `reparent_up_lemmas.rs`).
- `src/gfx` — mesh and PMX vertex layouts, vertex attribute plans, bind group
  layout plans, the material property table and its bind group plans
  (including which groups are out of date and must be made), preset lookup by
  name, key-frame selection, glyph packing, per-frame buffer sub-allocation,
  depth-stencil modes and adapter choice.
- `src/scene/components` — renderers, among them the static mesh renderer's
  pipeline cache.
- `src/looper.rs` — what the frame loop does at its start and with each window
  event, the phases of a frame, and the target frame rate.
- `src/context` — key states and the screen size.
- `src/bsp` — plane-side classification of boxes and triangles.
- `app/` — glue to `wgpu` values (shaders, pipelines and bind groups made from
  the library's plans, uniform and per-frame buffers), the frame loop runner,
  the scene's action loop that calls the controllers, standard-library types
  the verifier does not take, and floating point.
- `tests/` — the hierarchy scenarios and tests of each module.

`bitvec` holds the hierarchy's flags and `string-interner` its names; both are
called through small trusted wrappers in `storage/bits.rs` and
`storage/names.rs`, whose contracts state what the crates document.
