# fleet-router

A reverse proxy and load balancer for the Antelope SHiP (State History Plugin) WebSocket
protocol. Clients open one WebSocket connection to the router; the router picks a healthy
upstream SHiP node, forwards its ABI, and proxies frames in both directions. When an
upstream drops, the router fails over to another node, resumes the client's `get_blocks`
request at the next block, and leaves out blocks that the client already has.

## Layout

- `src/` is a verified library. It holds every decision of the router and performs no I/O.
  The contracts are proved by Verus.
- `app/` is the program: sockets, timers, signals and the command line around the library.
  It performs the actions that the library asks for and reports what happened as events.
- `tests/` exercises the library, from single functions to whole exchanges between clients,
  the router and mock servers.

## The library

| Module | What it decides |
|---|---|
| `functions` | which upstream serves a request |
| `connection_handler` | attempts to connect, connection counts, the upstream handshake |
| `session` | a client session: ABI, relaying, de-duplication, failover |
| `client_link` | the request to replay, and client frames that wait |
| `idle` | when a silent connection is closed or moved |
| `tasks` | monitoring: status, staleness, reconnecting |
| `models` | configuration, its validation, and the tables of upstreams |
| `health` | the HTTP health and metrics endpoint |
| `protocol`, `frame`, `zcd`, `bytes` | the SHiP wire format |
| `mock_ship` | a mock SHiP server session, for tests |
| `cli` | the command line, the connectivity test, the drain on shutdown |
| `abi` | ABI validation by `rs_abieos` |
| `text`, `string_map` | text and a map with text keys |

What the proofs rest on besides Verus: `rs_abieos` decides whether an ABI loads, and
`String::from_utf8_lossy` and `String::push` do what their documentation says. The items
that state this carry `external_body` or `assume_specification`.
