# Ralph Island — verified game rules

A Verus library with the rules of a co-op building game and of its room
server, and the Rust around it.

- `src/` — the verified library.
  - `inventory`, `crafting`, `combat`, `placement`: the gameplay domain.
  - `simulation`: the fixed-step, server-authoritative simulation
    (`simulate_step`), specified by `step_spec` over a model of the state.
  - `actor_table`, `keys`: a table keyed by actor identifier, kept in
    identifier (UTF-8 byte) order.
  - `room`, `text`, `auth`, `protocol`, `snapshot`, `server`: the room
    server's checks on identifiers, tokens, envelopes and commands, its
    snapshot choices, and the order of its decisions.
  - `movement`, `client`: input directions, the client's bounded queues and
    its log of inputs awaiting acknowledgement.
  - `properties`: properties of the library as a whole, proved.
- `tests/`: tests of the library on concrete values.
- `app/`: JSON forms of the gameplay types, floating-point movement, the game
  client's page bridge (wasm), and the server's clock and randomness.
