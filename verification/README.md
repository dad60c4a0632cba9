# gwars

A twin-stick arena shooter. The verified library in `src/` holds the parts of
the game that work on whole numbers:

- `simulation::objectstore` — the id-keyed object store behind entities,
  missiles and grid effects. Ids increase and are never reused; creation,
  update, lookup, in-place changes and garbage collection are specified over
  `StoreView` and proved, with laws in `lemma_create`, `lemma_update`,
  `lemma_remove_ids` and `lemma_ids_never_reused`.
- `simulation` — controller bits, shooting and steering directions, score
  levels, explosion frames and the bookkeeping of missile hits.
- `simulation::enemy` — enemy kinds, their points and random spawning.
- `simulation::vertexgrid` — index arithmetic of the background grid.
- `sound` — sound samples held in memory.

`app/` is the game itself: floating-point physics and geometry, SDL2 window,
input and drawing, and rodio audio, calling the library for the rules above.
