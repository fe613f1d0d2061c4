# rsrpc

Local rich-presence services: games publish over IPC sockets or a websocket,
running games are found in the process table, and web clients read it all from
a bridge in JSON or MessagePack.

- `src/` is the library. It holds every decision as a verified function: what a
  frame, a command or a scanner report does, what is sent to whom, which
  process is which game, which slot or port is taken.
- `app/` is the runtime around it: sockets, threads, files, the process table.
- `tests/` runs the library on concrete values.

Modules of the library, from the bottom up:

| Modules | What they hold |
|---|---|
| `text`, `table`, `slots`, `sorted_index`, `time`, `json` | texts, keyed tables, ordered slots, cadences, JSON access |
| `names`, `procfs`, `detectables`, `matching`, `app_ids` | comparison forms of names, process facts, the game database, classification |
| `server`, `scan_loop` | generations of the database, scan ticks, the event watcher, refreshes |
| `payload`, `message`, `query`, `origin`, `user`, `commands` | commands, payloads, identities and replies |
| `publications`, `frame`, `stream`, `ipc`, `paths`, `ws`, `sink` | the two game transports |
| `flood`, `replay`, `handoff`, `router`, `consumer`, `bridge`, `state`, `gauge`, `census` | the bridge |
| `presence`, `cards` | what holds of the whole: cards, handoff, connections |

Outside crates are reached through trusted items: `aho-corasick` (pattern
search), `serde_json` and `rmp-serde` (encodings), `bytes` (shared buffers) and
`tokio` (the bounded queue of a transport). The doc comment of each says what
is believed of it.
