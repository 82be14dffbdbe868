# gvm

The struct and enum instructions of a stack-based virtual machine, and the
value-level logic of its WebAssembly host, verified with Verus.

Layout:

- `src/object.rs` — runtime values (`Object`) and their model (`Value`);
  `FieldMap`, the name-to-value tables of structs, modules and enum payloads.
- `src/structs.rs` — the instructions `BuildStruct`, `GetField`, `SetField`,
  `CallMethod`, `BuildEnumStruct`, `BuildEnumTuple`, `MatchEnum`,
  `DestructureEnumTuple`, `DestructureEnumStruct`.  Each one's effect is a
  spec function on the stack model; the laws that relate instructions
  (read after write, destructuring after building, one result per
  instruction) are proof functions at the end of the file.
- `src/wasm_types.rs` — WebAssembly number types and their correspondence
  with the language's types.
- `src/wasm_memory.rs` — finding room in a guest memory, bump allocation,
  decoding NUL-terminated UTF-8 strings.
- `src/wasm_module.rs` — recognising binary and text WebAssembly, and
  compiling it with Wasmtime.
- `src/wasm_loader.rs` — module names, registry keys and file choice when a
  program imports a wasm module, and `WasmRegistry`, the cache of loaded
  modules and the runtime that a load takes and hands back.
- `app/` — the Wasmtime host: engine, WASI stores, instantiation, calls into
  guest code, reading and writing guest memory, loading modules from disk.
- `tests/` — tests of the library on concrete values.
