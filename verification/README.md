# tunnet_core

The core of a Tunnet mesh node, as a library whose behaviour is stated in contracts and
proved with Verus.

| module | what it holds |
| --- | --- |
| `scheduler` | per-peer FQ-CoDel packet scheduling |
| `frame`, `reassembly` | wire frames, and reassembly of segmented packets under byte caps |
| `policy` | access rules, firewalls, connection tracking and fragments: one verdict per packet |
| `routing` | peers, subnets, hostnames, exit nodes and names over the networks of a node |
| `pool` | connections by peer: dialing, waiting, buffering, backoff, blocking, idling |
| `peers` | transports and memberships of established peers |
| `inspect` | HTTP/1.1 reading, captured exchanges and their replay |
| `ipc` | the agent's requests and answers |
| `local_api` | the routes of the management API and what they need; data-plane health |
| `secret_store` | sealing of secrets at rest |
| `node` | what a node offers and how it starts |
| `known_hosts` | the SSH host keys of the mesh |
| `text`, `ip`, `octets`, `names`, `table`, `endpoint`, `packet` | what the others stand on |

Each module keeps a state as plain values and changes it by methods; clocks, randomness,
liveness of connections and what was read from disk come in as arguments. Laws that hold
of several operations stand as public proof functions whose names begin with `law_`.

Calls into outside crates stand behind small functions marked
`#[verifier::external_body]`; the comment above each says what is taken from the crate.

`app/` is the ordinary Rust around the library: sockets, files, tasks and JSON.
