# dungeoncrawl

A grid roguelike: the player walks down through generated dungeon levels,
fights goblins and orcs, picks up potions and maps, and wins by reaching the
Amulet of Yala.

- `src/` is the verified library (Verus): the map and its indexing, the four
  level architects (rooms and corridors, cellular automata, drunkard's walk,
  open field), the fortress vault, the spawners, the per-turn systems
  (input, chasing, combat, item use, end of turn, drawing decisions) and the
  level change.
- `tests/` runs the library on concrete values.
- `app/` is the terminal front end: the bracket-lib window and input, the
  legion entity store, path search and sight over the map, and drawing.
