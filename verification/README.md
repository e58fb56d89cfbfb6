# minesweeper

The board logic of a 15 x 15 minesweeper, verified with Verus.

- `src/game.rs`: the board types and the operations: laying out a board
  around randomly drawn mines (`edit_clear_setting`, `fill_board`,
  `setup_game`), pressing a button (`push_button`, `update_button`) and the
  flood fill that opens the area around a button showing 0
  (`get_zero_button`, whose result is pinned both as a set and in its
  depth-first scan order).
- `src/board.rs`: the model the contracts speak of (positions, neighbours,
  mine counts, the flood fill's result, the invariant `playable`).
- `src/laws.rs`: properties of the whole game: a laid-out board is
  playable, pressing keeps it playable, the flood fill opens exactly the
  connected region, the counter reaches its total exactly when every safe
  button is pressed; a layout depends only on its seed grid, and adding one
  mine to the grid raises exactly its neighbours' numbers.
- `src/rng.rs`: the one call into `rand`.
- `app/`: the bevy program around the library (window, screens, input).
