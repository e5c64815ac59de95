# kaonic

Verified logic of the Kaonic gateway, its ATAK plugin and its Reticulum VPN.

- `src/atak` — CoT validation and location records, the diagnostics state and
  its control protocol, ATAK interface selection, and the bridge's decisions
  on announces, links and payloads.
- `src/gateway` — audio mixer parsing and soft mute, WiFi settings and
  status, system readings, page helpers, the Reticulum destination tables,
  the local TLS names, serials and keys, and the certificates of the local
  root CA and the services it signs.
- `src/vpn` — networks, routes and the route table, peers, metrics, message
  framing and the `ip`/`iptables` plans.
- `src/text.rs` — character-sequence helpers shared by the parsers.
- `app/` — the program around the library: sockets, files, processes,
  floating-point readings, MessagePack bodies, the random root CA key and the
  certificate files.
- `tests/` — tests of the library.
