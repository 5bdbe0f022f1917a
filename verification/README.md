# Plumtree publish/subscribe

A node of a gossip mesh keeps, for every topic, a few eager peers that get full messages and lazy
ones that get announcements. Messages that were missed are asked for or found in a reconciliation.
Peers that keep timing out are cooled for a while and let back in by a recovery probe.

`src/` is the library: everything that a node decides, as functions from state and event to state
and action, with contracts that Verus proves. The clock, the network, signatures and floating-point
scores are handed in as plain values.

| module | what it holds |
| --- | --- |
| `topic`, `mesh`, `membership`, `rescue`, `upkeep` | one topic: its peers, its mesh, its housekeeping |
| `soundness`, `reported` | what every operation keeps: of a topic, and of what is reported of it |
| `inbound`, `recovery`, `routing`, `wire` | what comes in: frames, full messages, announcements, requests, reconciliations |
| `outbound`, `claims`, `results`, `budget` | what goes out: who may be sent to, and what comes of it |
| `cooling`, `timing`, `score`, `peer_scoring` | what is known of the peers |
| `cache`, `replay`, `recency` | what is known of the messages |
| `topics`, `connectivity`, `stats`, `diagnostics` | all topics together, and what is reported of them |
| `hashing`, `digest`, `order`, `ids`, `message`, `collections`, `time`, `config` | the ground it stands on |

The library trusts what `recency` says of the `lru` crate, `digest` of `blake3`, `wire` of
`postcard`, and `hashing` of `String::push`; each such item says what it claims.

`app/` is the node itself: tasks, locks, the transport, and the arithmetic of the scores. `tests/`
runs the library on concrete values.
