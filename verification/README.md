# raft

A toy implementation of the Raft consensus algorithm, as a verified library and a server
around it.

- `src/` is the library, verified with Verus: the node state and its replicated state
  machine (`state`), a text-keyed map (`str_map`), the messages nodes exchange (`rpc`),
  how a node answers appends and vote requests (`rpc_server`), how a leader keeps its
  followers up to date (`update`), how a follower stands for election (`election`), what
  the node answers its clients (`web`), node addresses (`rpc_util`), decimal text
  (`text`), the clock (`util`) and the state of the browser build (`lite`).
- `app/` is the server: the gRPC transport, the HTTP API, the timers and the files that
  hold the persisted state.
- `tests/` runs the library on concrete cases.
