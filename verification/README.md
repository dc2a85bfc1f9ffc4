# igisoro

Igisoro, the Rwandan four-row mancala, as a library whose rules carry
proved contracts, and a terminal game around it.

- `src/board.rs`: pits (`BoardIndex`), one player's half of the board
  (`PlayerBoard`, viewed as the 16 seed counts of its pits), sowing,
  capturing, and the seed-count laws.
- `src/engine.rs`: a move as a relay of steps (`Step`), its model
  (`relay_step`, `ends_within`, `relay_end`, `move_result`), `apply`,
  `apply_within`, and the laws of moves (seeds kept, refusals, turns).
- `src/state.rs`: the game position, actions and results.
- `src/game.rs`: a game between two move sources, one decision at a time.
- `src/move_source.rs`: where choices come from; the random player.
- `app/`: the terminal player and the loop that plays a game to its end.
