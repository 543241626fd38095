# openmines_server

The verified core of the OpenMines game server, written in Verus.

- `src/` — the library. Every function in it is verified: wire payload
  decoding and TY command routing, the session and login state machines,
  authentication throttling and heartbeats, password and token hashing,
  deadline schedules and command ingress, the player/chunk presence index,
  the building and bot-spot indexes, chunk view synchronisation and bot
  rendering plans, movement decisions, sand and granular physics on a grid
  model, building placement and removal rules, clans, skills, inventories,
  admin chat commands and charging of buildings.
  The run-time indexes (players by chunk, buildings, bot spots, dirty
  entities) are vectors with stated invariants, changed through `&mut self`;
  no concurrent map is shared between threads.
- `tests/` — tests of the library on concrete values.
- `app/` — ordinary Rust around the library: the per-player rate limiters,
  connection error classification, the floating-point percent of the fill
  bars of building windows, and the driver of the GUI login dialog.
