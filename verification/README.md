# rust_stubs

The platform layer of a block-building game, as a Verus-verified library.

- `src/` — the verified library:
  - `nbt_format.rs`: the named-binary-tag format as mathematics (encoding,
    decoding, well-formedness) and the proof that well-formed tags read back
    as written; `nbt.rs`: the tag values and the verified reader and writer.
  - `java/`: position/limit buffers and in-memory byte streams with
    big-endian data streams and a buffered output stream.
  - `storage.rs`: CRC-32 and in-memory save storage; `network.rs`: per-player
    flag bits and the round-trip-time report; `profile.rs`: profile settings
    defaults and stand-in identities; `main_app.rs`: command-line options;
    `util.rs`, `text.rs`: string helpers; `xbox.rs`, `constants.rs`,
    `facing.rs`: platform queries and constant tables.
- `tests/`: tests run against the compiled library.
- `app/`: the exported C functions and process-wide state around the library.
