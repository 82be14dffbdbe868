//! A stack-based virtual machine's struct and enum operations, and the
//! value-level logic of its WebAssembly bridge.
pub mod object;
pub mod structs;
pub mod wasm_types;
pub mod wasm_memory;
pub mod wasm_module;
pub mod wasm_loader;
