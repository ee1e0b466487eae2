# wasm_core

The host side of a plugin runtime for a Minecraft server: plugins are
WebAssembly components that the server loads through JNI.

- `src/` is the verified library: block positions, the block-state registry,
  the shadow copies of players and levels and the exchange of their changes
  with the server, the storage of entities by slot-map handle, the event and
  command name tables, and which folder entries are plugins.
- `app/` is the JNI library around it: the JNI entry points, protobuf
  encoding, the loggers, and loading and running the plugins with wasmtime.
- `tests/` runs the library on concrete values.

Maps keyed by strings (block names, property names, event and command
names) are kept in `registry::assoc_map::AssocMap`, an association list
verified in this crate. vstd's specifications of std's hash and tree maps
give no usable lookup contract for `String` keys, and a hash map of an
outside crate (such as `rustc_hash`'s) would have to be trusted whole.
