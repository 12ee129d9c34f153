# udp-transports

Two transports over UDP, with their logic verified by Verus.

- `src/kcp`: a reliable, ordered byte stream over datagrams. Segments and their
  bytes, windows for sending and receiving, round trip times, the states of a
  connection, and the sessions of a listener.
- `src/hysteria`: a transport over QUIC that looks like a web server to
  strangers. Congestion control, UDP sessions over datagrams, changing ports,
  disguises, letting clients in and answering everybody else.
- `src/json.rs`, `src/text.rs`, `src/decimal.rs`, `src/wire.rs`, `src/net.rs`:
  what both build on.

The library does no input and output. Functions that decide return what is to
be done, and take the time and what came from outside as arguments. `app` runs
them on sockets, QUIC connections and tasks, and computes what needs floating
point.

Contracts speak of views of the data. Public proof functions named `law_...`
state what holds across functions.
