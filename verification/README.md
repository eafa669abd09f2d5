# kcp-peer

Symmetric P2P transport layer around [KCP](https://github.com/skywind3000/kcp) using a single
UDP socket, as a verified state machine.

- **Symmetric design**: no client/server distinction; every node is identical.
- **Single UDP socket**: all traffic (all peers) shares one bound socket.
- **Auto-initiate**: the first `send()` to an unknown peer triggers a handshake. Data is queued
  meanwhile and flushed once the session is established.
- **Crash recovery**: when a peer restarts on the same address, the other side replaces its
  session and reports `PeerRestarted`, then `Connected`.

## Layout

`src/` is the library. Packets, ticks of the update timer and calls of the application go in;
datagrams to send and events to report come out as a list of actions, to be performed in order.
KCP frames leave while a call runs: each is put into a queue, whoever serves the socket is woken,
and the socket's answer goes back to KCP.

Everything in it is verified with Verus, but for the contracts of what is called outside. Those
are believed, and stand in `engine` (the `kcp` crate, channels and wakers), `buffer` (the `bytes`
crate), `time` (durations and the clock) and `random` (the `rand` crate), each with a comment on
what is claimed.

The `kcp` crate keeps sequence numbers and clocks in 32-bit counters that wrap, and adds to them
without wrapping operators. Build it without overflow checks, as release builds are: with them,
the turn of a counter or a crafted segment would panic. A program that is built with them, as
cargo's dev and test profiles are, switches them off for that crate:

```toml
[profile.dev.package.kcp]
overflow-checks = false
```

| Module | Content |
|--------|---------|
| `addr` | Socket addresses, their canonical form and their order |
| `packet` | The wire format: one type byte, then a conversation id or a KCP frame |
| `config` | KCP parameters, timers and limits, with a builder |
| `engine`, `buffer`, `time`, `random` | What is relied on of the `kcp`, `bytes` and `rand` crates and of the clock |
| `session` | One peer: handshake, reads and writes |
| `connection` | A session as a byte stream |
| `protocol` | What packets, ticks and calls do, as specifications |
| `transport` | All sessions of one socket |
| `laws` | What holds of the transport as a whole |

`app/` puts the library on tokio: the socket, the background tasks, the event channel, and
`AsyncRead` / `AsyncWrite` on a session. `tests/` joins transports by a network in memory.

## Handshake

```text
Initiator                    Receiver
   |---- SYN (conv_id) -------->|
   |                            |  create session (Established), report Connected
   |<--- SYN_ACK (conv_id) -----|
   |  Established, flush,       |
   |  report Connected          |
   |---- KCP_DATA ------------->|
```

A SYN is repeated with exponential backoff. Where both sides open at once, the conversation of
the side with the higher address is kept.
