# starpoint_service

The rules of a personal game service, verified with Verus: what each
endpoint accepts, what it computes from the stored player data, and what it
answers.

- `src/` is the verified library. Each module states its rules as spec
  functions and proves its executable functions against them: gacha payment,
  regions, campaigns, periods and draw assembly; the mission catalog, mission statistics,
  progress and rewards; mail claims;
  mana boards; experience; parties and profiles; stamina items; currency
  purchases; the multiplayer room and lobby rules; the frame transport and
  session bookkeeping of the multiplayer listener; MessagePack number
  normalization.
- `tests/` runs the library on concrete values.
- `app/` is the service around the library: request bodies and catalogs
  read with serde, the stored player JSON read and written back, and the
  multiplayer socket transport.

The outside calls of the library are the operating system's random source
(`getrandom`) and SHA-256 (`sha2`), each behind one trusted wrapper in
`src/random.rs` and `src/mission.rs`.
