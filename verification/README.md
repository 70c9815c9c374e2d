# battle_royale

Authoritative rules of a battle royale match, verified with Verus.

- `src/` is the library, every function of it verified:
  - `match_types`, `rules`, `simulation`: the match itself (lobby, drop, combat, the shrinking
    safe zone, storm damage, eliminations, the winner), modelled by `MatchView` and stated as
    spec functions in `rules`; `match_laws` proves what holds across ticks, and
    `match_invariants` what holds of every state reachable from a new match.
  - `wire`, `protocol`: the binary command and snapshot formats, with round-trip and
    exact-decoding laws.
  - `mobile`, `actions`: the touch-stick quantizer with its hysteresis, and the bindable actions.
  - `server_adapter`, `hosting`, `host_config`: the byte-level face a session runtime sees of a
    match, route names, match-set validation and the parsing of configured match ids.
- `tests/` runs the library on concrete values. Where a match must advance, the tests move
  bodies as a frictionless world without gravity would.
- `app/` is the host binary: environment settings, the physics world each match's players move
  in, the `game_server` session runtime and the `input_bindings_core` registry.
