# xxtab

xxtab carries the packets of a system WireGuard interface through a WebSocket connection to a
wstunnel server. It reads a tunnel configuration and a WireGuard configuration, brings the
interface up, keeps the connection alive, and takes everything back when it ends.

## Layout

- `src/` is the library. It decides everything that can be decided from plain values, and Verus
  proves its contracts: which configurations are accepted and what is made of them (`config`,
  `wgconfig`, `prepared`, `profiles`), how packets queue, leave and expire (`transport`), what the relay does
  with frames, datagrams, silence and lost connections (`relay`), the order in which a tunnel is
  built and taken back (`lifecycle`), the request that opens it
  (`handshake`), which updates are offered and which packages are accepted (`update`), the commands
  that manage WireGuard and its route (`system`, `recovery`, `macos`) and what they do to the routes
  of a system (`routes`), and what the window, the
  editor and the command line do (`gui`, `editor`, `layout`, `desktop`, `cli`).
- `src/outside.rs` holds the calls into outside crates and the contracts that are believed of them.
- `src/text.rs`, `src/pieces.rs`, `src/numbers.rs`, `src/net.rs` and `src/urls.rs` read and write
  texts, numbers and addresses.
- `tests/` runs the library on concrete values.
- `app/` is the program around the library: sockets, files, processes, the window. It asks the
  library what to do, does it, and hands back what came of it.

Time is passed into the library as nanoseconds, and what the system answered as plain values, so
that every decision can be repeated in a test.
