# monoio-ws

A WebSocket client, verified with Verus.

`src/` is the library. It holds what a client decides, without doing any I/O:

- `opcode`, `close_code`, `endian`, `frame`: how frames are put on the wire;
- `protocol`: the rules that a server's frames are held to, and the answers that
  are due;
- `message`: how messages are put together from fragments;
- `conversation`: what is sent over one whole message;
- `client`, `zero_copy`: two clients, one that owns what it reads and one that
  keeps payloads in an arena;
- `connect`: where to connect to, and the opening handshake;
- `buffer`, `bump`, `random`: what is relied on of the crates behind them.

Public proof functions state what holds across functions. `protocol` and
`zero_copy` read back whatever a server may send, however its bytes arrive.
`client` does so for frames of up to 125 bytes; of a longer one it takes the bytes
that spell the length for the beginning of the payload.

`app/` runs the clients on monoio streams. `tests/` runs the library on given
values.
