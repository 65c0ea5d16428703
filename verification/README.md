# hyper-util

Utilities for HTTP clients and servers. The decisions that they make are verified with Verus: each
function in `src/` states in its contract what it returns or changes, and the laws that span several
functions are public proof functions beside them.

- `src/client/connect`: how a destination becomes a connection. Names and addresses, the race
  between address families, the set-up of sockets.
- `src/client/legacy/connect/proxy`: tunnels through HTTP and SOCKS proxies, as messages and as
  handshakes that say what to send and what to read next.
- `src/client/proxy`: which destinations go through a proxy, read from the environment or from the
  settings of the system.
- `src/client/pool`: a service that is made once and shared by all callers.
- `src/client/service.rs`, `src/client/services`, `src/client/expect_continue.rs`: requests and
  bodies for HTTP/1.
- `src/server`: which version of HTTP a client speaks, and graceful shutdown.
- `src/common`, `src/util`, `src/rt`: buffers, streams and executors that both sides share.
- `src/text.rs`, `src/net.rs`, `src/uri.rs`, `src/header.rs`, `src/buffers.rs`, `src/time.rs`: the
  values that the rest works on.

The functions that call another crate are small and marked `external_body`; their doc comments say
what is assumed of that crate. `app/` connects the decisions to sockets, futures and services, and
`tests/` runs them on concrete values.
