# room_server

A signalling service for WebRTC screen sharing rooms, and the TURN/STUN relay
that goes with it.

- `src/` is the library, verified with Verus: the configuration read from
  `ROOM_*` variables, the ICE server list with its time-limited TURN
  credentials, the admission of WebSocket sessions, the room state (hosts,
  viewers, passwords, bans, network fingerprints) as a state machine whose
  steps return the events to deliver and the connections they go to, and the
  TURN service settings. `src/laws.rs` holds the properties that span several
  operations.
- `app/` is the program around it: the HTTP routes and WebSocket sessions
  (axum and tokio), the JSON forms of the events (serde), and the start of the
  TURN relay (`turn-server`). Run it with no argument for the signalling
  service and with the argument `turn` for the relay.
- `tests/` runs the library on concrete inputs.
