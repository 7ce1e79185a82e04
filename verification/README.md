# tetris

A falling-block game as a verified library: all seven pieces with four rotation
states and a simple wall kick, a seven-bag randomizer, line-clear scoring, a
flash for cleared rows, and the picture of the game as a list of drawing steps.

- `src/piece.rs`: the pieces and their shapes.
- `src/board.rs`: collisions, locking, full rows, collapsing.
- `src/bag.rs`: the randomizer, on top of the `rand` crate.
- `src/layout.rs`: where the board goes on a screen.
- `src/model.rs`: the game as a state machine over mathematical values.
- `src/game.rs`, `src/game/draw.rs`: the game, proved to follow the model.
- `src/scene.rs`: what is drawn.
- `src/validity.rs`, `src/game_steps.rs`, `src/play_laws.rs`, `src/bag_laws.rs`,
  `src/counts.rs`, `src/picture_laws.rs`: what holds of every game.
- `app/`: the game on a device, which does the drawing.

A caller makes a game with `TetrisGame::new`, calls `gravity_tick` every 10 ms,
hands the player's input to `move_left`, `move_right`, `rotate` and `hard_drop`,
and draws what `draw` returns whenever `gravity_tick` says that something shows
or the player moved.
