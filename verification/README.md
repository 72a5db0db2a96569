# zombs_engine

The game logic of a first-person zombie-survival game for the browser, written in
Verus and verified, with the browser shell around it.

- `src/` is the verified library:
  - `engine/components.rs` — the integer and marker components; the gun's ammunition
    and reload state machine.
  - `engine/input.rs` — held-key state and the key-binding table.
  - `engine/systems.rs` — the discrete decisions of the frame systems: limb poses,
    walk direction, trigger/jump/reload handling.
  - `engine/hierarchy.rs` — descendants of entities through parent links (hiding the
    player's body, despawning whole models).
  - `engine/world.rs` — the ECS world (`hecs`) as the library sees it (live entities,
    parent links, zombob and player markers, kill counts, and a code standing for all
    their other components), and the verified operations
    on it: despawning whole models, removing every zombob with all that hangs below it,
    finding the hidden entities and the entities drawn with the zombob skin.
  - `engine/renderer.rs` — texture decoding (`image`) and its upload layout, the
    instance record layout, instance grouping, buffer growth and draw ranges.
  - `game.rs` — run progress and restart, wave pacing, score, the kills of a frame, the
    spawn-attempt budget and the layout of character models.
- `app/` is the browser game: the floating-point components, physics, steering and
  camera (`glam`), random placement (`rand`), the WebGPU renderer (`wgpu`,
  `bytemuck`), and the JavaScript bindings (`wasm-bindgen`, `web-sys`). It calls the
  library for every decision above.
- `tests/` exercises the library on concrete values.
