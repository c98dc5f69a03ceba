# MicroWAF

Host-side WAF for Linux. It counts L7 traffic (HTTP, WebSocket, Z21,
WiThrottle) and generic UDP/TCP per client MAC+IP, evaluates per-client
sliding windows against YAML rules (with optional CEL matches), and
throttles or blocks offenders through an XDP policy map.

The library under `src/` holds the logic with its contracts, proved by
Verus; `app/` is the program around it (command line, sockets, capture,
Redis, config files on disk).

## Layout

- `src/packet.rs`, `src/sniffer.rs` — frame headers, flow table, and the
  counter bumps one captured frame causes.
- `src/z21.rs`, `src/ws.rs`, `src/withrottle.rs`, `src/http.rs` — L7 detectors.
- `src/cel_syntax.rs`, `src/cel_match.rs` — the CEL expressions a rule may
  hold, match contexts and CEL evaluation. A rule's `match` is refused when
  the rules load if it holds a message literal (`Name{..}`), a comprehension
  macro (`all`, `exists`, `exists_one`, `map`, `filter`) on anything but a
  list literal, a `sets.<name>` list or a `map`/`filter` result, a call of
  `duration` or `timestamp`, a unary `-` before anything but a number
  literal, or an index other than a string literal or a short number
  literal: on those the interpreter can panic or depend on map order.
- `src/rule.rs`, `src/config.rs`, `src/window.rs`, `src/policy.rs`,
  `src/counters.rs`, `src/daemon.rs` — rules, windows, policy merge and the
  per-second decision tick.
- `src/wire.rs`, `src/ipc.rs`, `src/rpc.rs` — wire protocol, framing, the
  daemon's request handling and the client's reply decoding.
- `src/store.rs`, `src/bpf.rs`, `src/enforcer.rs` — persistence keys and
  records, the XDP policy map and enforcers.
- `src/render.rs`, `src/table.rs`, `src/cli.rs`, `src/settings.rs`,
  `src/iface.rs` — the `top` table, command-line texts, startup settings and
  interface helpers.
- `tests/` — tests against the library.
- `app/` — `main`, daemon threads, IPC server, AF_PACKET capture, Redis,
  YAML config loading and hot reload, the live `top` view.
