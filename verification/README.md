# dungeon_crawl

A small roguelike: a dungeon of rooms and corridors, a player, goblins and orcs, and the
Amulet of Yala. The game's rules are a Verus-verified library under `src/`; the window, the
frame loop and the ECS plumbing live in `app/`.

- `src/map.rs`, `src/geometry.rs`: the tile map, points and rectangles.
- `src/map_builder/`: laying a map out as non-overlapping rooms joined by corridors, placing
  the player, the monsters, the amulet and the exit.
- `src/systems/`: the turn's systems (movement, chasing, combat, end of turn) as functions
  from what they read in the world to the changes they queue.
- `src/spawner.rs`: the entities put into the world.
- `src/ecs.rs`, `src/random.rs`: the contracts the library relies on from `legion` and
  `bracket-lib`.
- `app/`: the `bracket-lib` window, `legion` schedules, and the distance maps (which work in
  floating point) used for chasing and for placing the amulet.
