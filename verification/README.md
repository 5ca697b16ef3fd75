# bullet_hell

A small multiplayer game server: worlds tick on a timer and players talk to
them over websockets.

- `src/` is the verified library:
  - `gol.rs`: the Game of Life board, with a proof that a tick computes the
    next generation (Conway's rule on every cell) and that the rule favours
    no direction;
  - `shooter.rs`: a world with one ship flying down the screen;
  - `hub.rs`: the registry of player connections and its identifiers;
  - `server.rs`: the decisions of the server loops (reset period, request
    routing, frame handling) and the compression of the world's state;
  - `text.rs`: decimal formatting of integers;
  - `since.rs`: a lap timer;
  - `conceptual.rs`: the traits and requests shared by worlds.
- `app/` is the program: command-line arguments, the warp server, the
  async loops, JSON rendering of boards, and floating-point geometry.
- `tests/` runs the library on concrete boards, ships and requests.
