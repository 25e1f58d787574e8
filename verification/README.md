# duckkit

A verified library around the challenges of Duck.ai: it parses a challenge script, finds
its string table and the rotation that brings the checksum to its target, folds the
script, reads the payload and the probes, and writes the token that answers it. It also
holds the state of a chat session and the decisions of its protocol.

- `src/` is the library, with its contracts and their proofs.
  - `pipeline/`: `parse` and `syntax` (scripts), `walk`, `statics`, `roles` and `table`
    (string tables and their lookups), `mba`, `ops` and `jit` (checksums), `propagate`,
    `fold`, `sx` and `render` (folded scripts), `html`, `checks` and `probes` (probes),
    `flow` (the model of a challenge), `deob` (a readable listing), `bundle` (facts of
    the page's script).
  - `solver`, `session`, `chat`, `turn`, `net`, `request`, `wire`, `ident`: tokens, the
    state of a session, the turns of a conversation, headers, frames and bodies.
  - `b64`, `sha`, `jsnum`, `ints`, `text`, `floats`, `err`, `cli`: the ground they stand
    on. Numbers are held as the bits of binary64 values; `floats` says what is asked of
    the caller's rounding arithmetic.
- `app/` is the program: commands, files, the network, the e-graph and the code
  generator.
- `tests/` run the library.
