# botbowl

Blood Bowl 2020 rules as a verified library: the procedure-stack state machine that runs a
game, the dice and how the engine resolves the rolls procedures ask for, the board, the
players and the rule tables. Each procedure's step states in its contract what it does to the
game state and what it asks for next (a roll, an action, or the procedures to push).

Layout:

- `src/gamestate.rs`: the game state, its invariant `wf`, the player and ball operations,
  dice modes, `micro_step`, one step of the engine, and the loops that run it:
  `step_with_roll_or_action` (until a roll or an action is needed) and `step` (resolving
  rolls under the dice mode until an action is needed). The loops require that the run ahead
  stays within what every procedure on the way accepts (`runs_clean`, `plays_clean`), and
  state where they end as a chain of engine steps (`runs_to`, `plays_to`). A game starts
  with `GameStateBuilder::new_start_of_game_with`, at the coin toss.
- `src/engine.rs`: settling what a stepped procedure returned on the procedure stack.
- `src/procedures/`: the procedures (blocks and pushes, ball handling, movement rolls,
  kick-offs, injuries), `AnyProc` and its step dispatch, and the setup formations.
- `src/dice.rs`: dice, the faces a draw shows, and the rolls drawn from a seeded generator
  (`spec_resolve_with_rng`).
- `src/rules.rs`, `src/table.rs`, `src/board.rs`, `src/pitch.rs`,
  `src/player.rs`, `src/model.rs`, `src/actions.rs`: rule tables, board geometry,
  players and the actions offered to a coach.
- `src/builder.rs`: the description of a game to be built, including the board drawings.
- `src/curriculum/`, `src/data.rs`: the training scenarios' integer logic and the dataset
  records.
- `app/`: serialisation with serde, reading the board from the environment, and the
  floating-point helpers.
