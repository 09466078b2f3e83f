# cybersub

The deterministic game-state logic of a 2D submarine simulation (water on a
grid of cells with pressure and inertia, wires carrying power and logic
signals, pumps, doors, sonar, docking), written in Verus with its behaviour
stated in `requires` / `ensures` contracts and proved.

Layout:

- `src/` — the verified library, one module per part of the simulation:
  `grid` (row-major addressing), `wires`, `water`, `water_balance` (a closed
  hull keeps its water), `rocks`, `sonar`, `state`, `objects`,
  `object_update`, `navigation`, `collisions`, `docking`, `shadows`,
  `saveload` (PNG pixels to cell templates and back), `framing`
  (length-prefixed messages) and `game` (the whole game state, the commands
  that change it and the tick that runs every part in order).
- `tests/` — tests of the library on concrete values.
- `app/` — a headless runner: loads a submarine directory (PNG images and
  YAML files), runs simulation ticks and saves the result.

Verify with Verus on `src/lib.rs`; the tests and the runner build with Cargo.
