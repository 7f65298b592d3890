# stitch

A local-first document store whose rules are verified with Verus.

Peers replicate JSON records with hybrid logical clocks: of two writes to one
record the later stamp wins, and the peer id breaks ties. Every peer keeps the log
of every origin, pulls what it lacks, and ends with the records of all others.
Members of a scope sign what they write. A second family of stores follows a
broker instead, one open scope at a time.

- `src/` is the library. Every function states what it does in `requires` and
  `ensures`. Functions marked `external_body` call outside crates (ring, rcgen,
  uuid, rand, mqtt5, serde_json); their contracts are believed, and their comments
  say what is believed.
- `app/` is the runtime around it: sockets, QUIC, MQTT, databases and tasks. Its
  loops wait, poll and give up after a while; what to do next the library says.
- `tests/` runs the library on concrete values.

The laws of the library are public proof functions beside the code that they speak
of. The central ones:

- `convergence.rs`: replicas that have merged the same frames of every origin show
  the same records, however the origins were interleaved.
- `wire.rs`: decoding gives back what was encoded.
- `transfer.rs`: the receiver of a file ends with the bytes that were sent.
- `sync_engine.rs`: opening a scope loses no mutation, and a client never hears
  its own messages.
