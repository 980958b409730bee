# space_engineers

Data structures and the network wire format of Space Engineers, written in
Verus and verified.

The library (`src/`):

- `bits`: bit strings, the reader and writer of the game's LSB-first bit stream.
- `wire`: fixed-size numbers at any bit position, bits, variable-length
  integers, length-prefixed bytes, strings and vectors; the `BitCodec` trait
  whose law is that decoding an encoding gives the value back.
- `nullable`, `collections`, `bcl`, `math`, `direction`: the value types of
  the game's serialization.
- `packet`: frames with CRC-32 checksums; `control`, `replication`, `rpc`,
  `state_groups`: the packets they carry.
- `version`: lookup tables between version-specific IDs and stable hashes.
- `compression`, `server_data`: the length-prefixed gzip format and the
  Steam server rules that carry it.

`app/` holds what the library cannot: JSON schema files, serde forms, text
forms of errors, chrono and glam conversions, floating-point math types and
`enumflags2` bit fields.
