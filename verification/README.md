# Ironveil

The rules of a terminal roguelike dungeon crawler, verified with Verus:
items and their affixes, the three classes and their abilities, dungeon
floors (rooms, caves, loops, vaults, lakes, machines, decorations), line of
sight and fog of war, A* navigation, monster behaviour, the monsters' half
of a round, and what a step, an ability or a monster tick does to a run.

- `src/` is the verified library. `game.rs` holds a run's state and its
  steps; `guards.rs` the run-time tests of the ranges the rules are made
  for; the other modules hold the rules themselves.
- `app/` is the terminal program around it: screens, input, drawing,
  saving and loading.
- `tests/` runs the library on concrete cases.

Randomness comes from the `rand` crate through two small wrappers in
`src/rng.rs`; every contract states what holds whatever the dice give.
