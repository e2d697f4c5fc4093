# mzmq

A `no_alloc` Rust library that speaks ZMTP 3.1 as a **PUB** or **RADIO** endpoint,
written in Verus: every function of the library states in a contract what it does,
and the contracts are proved.

- `src/` is the library. It does no IO: connections are fed the bytes that a peer
  has sent, and write what has to be sent into buffers of the caller; the driver
  cores under `io` decide what a driver has to read and write next.
- `app/` holds the drivers: blocking ones over `embedded-io`, future-based ones over
  `embedded-io-async`, and an adapter for smoltcp's TCP sockets.
- `tests/` runs the library on concrete values.

| Module | What it holds |
|--------|---------------|
| `bytes`, `command` | byte strings, big-endian numbers, the layout of commands |
| `frame` | frame headers and the streaming frame decoder |
| `greeting`, `null`, `plain` | greetings; READY and ERROR; HELLO and WELCOME |
| `entries`, `sub_table`, `group_table`, `registry` | the bounded tables of a peer's interests |
| `session`, `connection`, `radio_connection` | the state machine of one peer |
| `io::driver`, `io::blocking`, `io::rx` | the driver cores and their receive buffer |
| `laws`, `io::laws` | what holds across operations: handshakes, delivery, ordering |
| `io::pieces`, `io::poll_pieces` | handshakes whose bytes come in pieces |

The tables keep their entries in `heapless::Vec`. What is taken on trust about it
stands at the top of `entries`, one contract for each of its methods that is called.
