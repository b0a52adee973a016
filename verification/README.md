# cratetorrent

A BitTorrent version 1 engine whose logic is verified with
[Verus](https://github.com/verus-lang/verus).

- `src/` is the library. It holds the wire protocol, the bookkeeping of pieces and
  blocks, the layout of a torrent's files on disk, and the decisions that peer
  sessions, torrents and the disk make on each event. Every function states its
  behaviour in a contract, and functions named `law_...` state what holds of several
  of them together.
- `tests/` runs the library on concrete values.
- `app/` is a command line client around the library: it owns the sockets, files,
  timers and the terminal. It hands events to the library and performs the actions
  that it gets back.

What is not proved is what the library takes from other crates: bit vectors
(`bitvec`), byte buffers (`bytes`), SHA-1 (`sha-1`), URLs (`url`) and hexadecimal
text (`hex`). Each of those calls stands in a small wrapper whose comment says what
is expected of it.
