# classicube-relay

Sending and receiving relay messages of the MCGalaxy relay plugin for
ClassiCube, verified with Verus.

A message ("stream", up to `u16::MAX` bytes) travels as 64-byte plugin
messages: one start packet (flags, scope, total length, 59 data bytes) and
as many continue packets (flags, 63 data bytes) as the rest needs.

- `src/packet/`: the packet format: encoding to bytes and decoding from a
  `ByteReader`, with the decode-after-encode laws.
- `src/stream.rs`: outgoing streams, their ids, and how they are cut into
  packets.
- `src/events/`: incoming streams; `Store` puts the packets of each stream
  back together and drops the ones that time out.
- `src/round_trip.rs`: what a listener makes of the messages of a stream:
  exactly the data that was sent.
- `app/`: the parts that talk to the game (event handlers, a process-wide
  id pool whose ids are given back on drop) and error types with
  `std::error::Error`.
