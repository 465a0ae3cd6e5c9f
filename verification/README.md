# shotcaller

A small lane-battle game for the terminal, built on the minigene engine.

- `src/` is the verified library (Verus): the map and its walls (`map`,
  `render_map::create_map_bg`), the buildings at the start of a match
  (`layout`), the side panel (`render_map::render_ui`, with the key bindings
  sorted in `keybinds` and numbers written in `text`), the per-frame decision
  (`tick`), and the ECS storages it fills (`ecs`).
- `app/` is the program around it: reading the YAML definition files, the
  terminal, input, and the parts of the game that compute with floating-point
  numbers (stats, distances).
- `tests/` runs the library on concrete values.
