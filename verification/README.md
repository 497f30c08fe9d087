# chatixia-mesh

An agent-to-agent mesh over WebRTC. A registry relays signaling between
sidecars, keeps the agent registry and a task queue; each agent's sidecar
holds the WebRTC connections of the mesh and bridges them to the agent over
a Unix socket.

## Layout

- `src/` — the library, verified with Verus.
  - `registry/` — API keys and tokens, TURN credentials and ICE
    configuration (`auth`), the task queue (`hub`), the agent registry and
    heartbeats (`registry`), the signaling relay (`signaling`), and the
    topology shown by the dashboard (`topology`).
  - `sidecar/` — the wire formats (`protocol`), the mesh bookkeeping
    (`mesh`), what the sidecar does for each agent command (`ipc`) and each
    signaling message (`signaling`, with the reconnect backoff), and the
    messages and rules of peer connections (`webrtc_peer`).
  - `text.rs` — decimal and JSON string rendering shared by the wire formats.
  - `clock.rs`, `shared_map.rs` — the clock and the `dashmap` table type.
- `tests/` — tests of the library.
- `app/` — the two programs (`registry`, `sidecar`): HTTP and WebSocket
  serving, the signaling client, the IPC socket and the WebRTC calls, all
  deferring their decisions to the library.
