# maze

A grid-based maze game built with Bevy, whose game logic is a library
verified with Verus.

The maze is a graph of cells. Each cell has six faces (four horizontal
directions, up and down) and is linked through a face to a neighbouring cell.
Cells are grouped into coloured rooms, and rooms record the doors between
them. Cells may overlap in space, so the maze need not be Euclidean; what the
player sees is worked out by casting rays through the graph rather than
through space.

## Layout

- `src/` — the verified library:
  - `direction.rs`: the six directions, turns, grid positions and steps;
  - `edge.rs`: the kinds of cell boundaries;
  - `cell.rs`, `graph.rs`: cells, their links, and the cell graph;
  - `room.rs`: rooms, their cells and exits, and the map from cells to rooms;
  - `maze.rs`: the maze layout of the game, building it, and placing the goal;
  - `movement.rs`: reading the player's keys, planning moves and turns;
  - `visibility.rs`: ray casting and the set of visible cells;
  - `wall.rs`: which walls and doorway frames a cell shows;
  - `config.rs`: parsing key names and log levels from the configuration.
- `tests/` — tests of the library.
- `app/` — the game itself: Bevy systems, configuration loading, rendering,
  and the floating-point geometry of cameras, walls and animations.

## Controls

| Key | Action |
|-----|--------|
| W / S | Move forward / backward |
| A / D | Move left / right |
| Q / E | Turn left / right (90°) |

Movement is grid-based and relative to the facing direction. Holding a key
repeats the move every `input_repeat_delay` seconds (set in `config.toml`).
