# rust_redis

A small Redis-like key/value server. The library (`src/`) holds the parts
that decide: the wire format of frames (reading, checking, writing), the
commands carried in frames, the store of values and channels, the buffer of
bytes a connection has received, and what a server does with each frame it
is sent. Each is verified with Verus against a mathematical model:

- `cursor`: a read position over a byte buffer.
- `wire`: the wire format as functions on byte sequences (`parse_at`,
  `check_at`, `serialize`); `wire_laws` proves that the parser reads back
  what the serializer writes.
- `frame`: frames and the functions that read and write them.
- `cmd`, `event`: commands (GET, SET, DEL, PUBLISH, SUBSCRIBE, UNSUBSCRIBE) and change reports, and their frames.
- `db`: the store. Its view holds the values, the history of changes to
  them (a read follows the last change to its key), and for each channel
  its id and the log of messages handed to it.
- `channel`: the tokio broadcast channels the store publishes on. Each
  handle carries a ghost channel id; a receiver is owed the part of its
  channel's log that follows its start.
- `connection`: received bytes and taking frames from them.
- `server`: the reply to each command.
- `ext`: the calls into `bytes` and `std` that the library trusts.

`app/` is the program around it: sockets, tasks and locks (`main` runs the
server; `main client` runs a client that sets and reads two keys).
