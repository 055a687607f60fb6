# bevoids

Game logic of a small Asteroids-style arcade game, written in Verus with
its behaviour stated as contracts and proved.

- `src/` — the verified library:
  - `highscore`: scores, the highscore board (ordering, capacity, stable
    re-sorting of a loaded board) and the running score;
  - `game_state`: the game's states, the state stack and the pause key;
  - `menus`: what the menu screens do on clicks, their hints, the table of
    highscores and entering a new highscore;
  - `spawner`: when asteroids are spawned; `asteroids`: the controllers of
    shot asteroids, the asteroid material pool and texture bookkeeping;
  - `hit_test`: pairing lasers and the player with the asteroids they touch;
  - `asset_map`: assets tracked by key (with what was requested, such as
    how an atlas is cut) until they have loaded;
  - `controls`: the steering decisions taken from the keys each frame;
  - `paths`: `/`-separated paths read by their components, and their plain
    written form (the directory listing of `embedded` lists each path once);
  - `animation`, `shadows`, `movement`, `scoreboard`, `text`, `settings`,
    `embedded`: smaller pieces.
- `app/` — a command-line front end that stores the highscore board as JSON
  and prints it, plus the floating-point formulas of the game.
- `tests/` — tests of the library.
