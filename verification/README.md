# game2048

A 2048 engine on a bit-packed board, verified with Verus.

The board is one `u64`: cell `i` is the nibble at bits `4i .. 4i + 4`, row `r` holds
cells `4r .. 4r + 4`, and a cell holds a rank (0 for empty, `r` for a tile worth `2^r`).

- `src/bits.rs`: the model of the board (cells, rows, columns) and the bit-level lemmas.
- `src/line.rs`: what a move does to one line: slide, merge pairs from the front, points.
- `src/row.rs`: moves and points of one 16-bit row.
- `src/board.rs`: transposition, the four moves, the points of a move, the move tables and
  `MoveTables`, which moves a board by four table lookups.
- `src/counts.rs`: empty cells and distinct tiles.
- `src/spawn.rs`: the new random tile: `spawn_tile_with` places it for given draws, and
  `spawn_new_random_tile` takes the draws from `rand`.
- `src/play.rs`: one turn of the game.
- `src/heuristic.rs`, `src/search.rs`: the integer side of the move search.
- `src/laws.rs`: properties that relate the functions.
- `app/`: the command loop and the floating-point expectimax search.
