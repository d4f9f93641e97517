# Starfall Dominion

A menu-driven 4X space war game: Farlight against the Starfall Dominion on a
3,000 × 2,000 unit map of thirteen sectors, twenty-six planets and a wreck or
two per sector to find under the fog of war.

## Layout

- `src/` is the game's rules as a library, every function proved by Verus
  against its contract:
  - `geometry`: fixed-point world coordinates (10⁹ steps to the unit) and exact
    distance tests;
  - `rng`: the seeded generator (splitmix64 into xorshift64*);
  - `layout`, `planets`: the sector outlines and the planet table;
  - `fog`: the player's chart, its reveal discs and corridors, and the texture
    bytes the renderer uploads;
  - `economy`: resources, securing, income and the shipyard;
  - `poi`: points of interest, their placement, loot and respawn clocks;
  - `world`: the game state and a new game from a seed;
  - `actions`: the Action Registry: previews and committed orders share one
    validation;
  - `shell`: the player's session around the rules (screens, selection,
    keyboard focus, what a click or a right drag means);
  - `cursor`, `icons`: the pointer's downscale and the icons' names.
- `tests/` exercises the library.
- `app/` is the window, the GPU backdrop and the Lantern UI 2 widgets around
  the library. It needs the local Lantern crates to build, and reads the
  pointer's picture from `assets/cursor.png` beside the executable (or under
  the working directory); without it the system pointer stays.
