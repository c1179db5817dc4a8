# tetrominal

A falling-block game for the terminal, with its rules verified in Verus.

- `src/` is the verified library: the rotation table (`shapes`), collisions and the
  falling piece (`board`), the game state and its moves (`game`), clearing full rows
  with its animation frames (`clear`), the game-over ordering (`vanish`), levels, gravity
  and points (`timing`), key bindings (`input`), and laws about all of these (`laws`,
  `well`). The only trusted item is the random choice of the next kind (`rng`).
- `app/` draws the well with crossterm, reads keys, keeps time, and runs the game loop.
- `tests/` runs the library on concrete games.
