use gvm::object::RuntimeError;
use gvm::wasm_loader::{
    choose_wasm_module_file, wasm_module_name, wasm_registry_key, WasmModuleFile, WasmRegistry,
};
use gvm::wasm_memory::{
    bump_allocate, decode_managed_string, decode_wasm_string, find_free_offset, WASM_PAGE_SIZE,
};
use gvm::wasm_module::{detect_wasm_format, wasm_binary, WasmModule, WasmSource};
use gvm::wasm_types::{TypeMapping, WasmType};

fn message(e: &RuntimeError) -> String {
    match e {
        RuntimeError::InvalidOperation(m) => m.clone(),
    }
}

#[test]
fn wasm_type_from_str() {
    assert_eq!(WasmType::from_str("i32"), Some(WasmType::I32));
    assert_eq!(WasmType::from_str("i64"), Some(WasmType::I64));
    assert_eq!(WasmType::from_str("f32"), Some(WasmType::F32));
    assert_eq!(WasmType::from_str("f64"), Some(WasmType::F64));
    assert_eq!(WasmType::from_str("I32"), None);
    assert_eq!(WasmType::from_str(""), None);
}

#[test]
fn type_mapping_tables() {
    let m = TypeMapping::new();
    assert_eq!(m.get_wasm_type("Int"), Some(WasmType::I32));
    assert_eq!(m.get_wasm_type("Float"), Some(WasmType::F64));
    assert_eq!(m.get_wasm_type("Bool"), Some(WasmType::I32));
    assert_eq!(m.get_wasm_type("String"), Some(WasmType::I32));
    assert_eq!(m.get_wasm_type("List"), None);
    assert_eq!(m.get_g_type(WasmType::I32).as_deref(), Some("Int"));
    assert_eq!(m.get_g_type(WasmType::I64).as_deref(), Some("Int"));
    assert_eq!(m.get_g_type(WasmType::F32).as_deref(), Some("Float"));
    assert_eq!(m.get_g_type(WasmType::F64).as_deref(), Some("Float"));
}

#[test]
fn type_mapping_default_and_round_trips() {
    let m = TypeMapping::default();
    for g in ["Int", "Float"] {
        let w = m.get_wasm_type(g).unwrap();
        assert_eq!(m.get_g_type(w).as_deref(), Some(g));
    }
    let back = m.get_wasm_type(&m.get_g_type(WasmType::I64).unwrap()).unwrap();
    assert_eq!(back, WasmType::I32);
    let back = m.get_wasm_type(&m.get_g_type(WasmType::F32).unwrap()).unwrap();
    assert_eq!(back, WasmType::F64);
}

#[test]
fn free_offset_is_end_of_data() {
    let data = vec![1u8; 100];
    assert_eq!(find_free_offset(1, &data, 8).unwrap(), 100);
    assert_eq!(find_free_offset(1, &[], 8).unwrap(), 0);
    assert_eq!(find_free_offset(1, &data, 0).unwrap(), 0);
}

#[test]
fn free_offset_errors() {
    let e = find_free_offset(0, &[], 1).unwrap_err();
    assert_eq!(message(&e), "Not enough memory to allocate");
    let e = find_free_offset(0, &[], 0).unwrap_err();
    assert_eq!(message(&e), "Failed to find free memory location");
    let full = vec![0u8; WASM_PAGE_SIZE];
    let e = find_free_offset(1, &full, 4).unwrap_err();
    assert_eq!(message(&e), "Failed to find free memory location");
}

#[test]
fn bump_allocation_advances() {
    let mut next: usize = 4096;
    assert_eq!(bump_allocate(&mut next, 10), 4096);
    assert_eq!(next, 4106);
    assert_eq!(bump_allocate(&mut next, 0), 4106);
    assert_eq!(next, 4106);
}

#[test]
fn strings_stop_at_nul() {
    let mut data = b"hello".to_vec();
    data.extend_from_slice(&[0, b'x', b'y']);
    assert_eq!(decode_wasm_string(data).unwrap(), "hello");
    assert_eq!(decode_wasm_string(b"no nul".to_vec()).unwrap(), "no nul");
    assert_eq!(decode_wasm_string(vec![0, 0, 0]).unwrap(), "");
    assert_eq!(decode_managed_string("héllo\0".as_bytes().to_vec()).unwrap(), "héllo");
}

#[test]
fn invalid_utf8_is_reported() {
    let e = decode_wasm_string(vec![0xff, 0xfe, 0]).unwrap_err();
    assert!(message(&e).starts_with("Invalid UTF-8 in wasm string: "));
    let e = decode_managed_string(vec![b'a', 0xc3]).unwrap_err();
    assert!(message(&e).starts_with("Invalid UTF-8 from wasm: "));
    // Bytes after the NUL are never decoded.
    assert_eq!(decode_wasm_string(vec![b'a', 0, 0xff]).unwrap(), "a");
}

#[test]
fn detects_formats() {
    assert!(matches!(
        detect_wasm_format(&[0x00, 0x61, 0x73, 0x6d, 0x01, 0x00, 0x00, 0x00]),
        WasmSource::ClassicBinary
    ));
    assert!(matches!(
        detect_wasm_format(&[0x00, 0x61, 0x73, 0x6d, 0x0d, 0x00, 0x01, 0x00]),
        WasmSource::ComponentBinary
    ));
    match detect_wasm_format(b"  \n\t(module)") {
        WasmSource::ModuleText(t) => assert_eq!(t, "  \n\t(module)"),
        _ => panic!("expected module text"),
    }
    assert!(matches!(detect_wasm_format(b"(; comment ;) (module)"), WasmSource::ModuleText(_)));
    assert!(matches!(detect_wasm_format("\u{3000}(component)".as_bytes()), WasmSource::ComponentText(_)));
    assert!(matches!(detect_wasm_format(b"(func)"), WasmSource::Unrecognized));
    assert!(matches!(detect_wasm_format(&[0x00, 0x61, 0x73]), WasmSource::Unrecognized));
    assert!(matches!(detect_wasm_format(&[0xff, 0x28]), WasmSource::Unrecognized));
}

#[test]
fn loads_text_module() {
    let engine = wasmtime::Engine::default();
    let m = WasmModule::load_from_bytes(
        &engine,
        "adder",
        b"(module (func (export \"add\") (param i32 i32) (result i32) local.get 0 local.get 1 i32.add))",
    )
    .unwrap_or_else(|e| panic!("{}", message(&e)));
    assert!(matches!(m, WasmModule::Classic { .. }));
    assert_eq!(m.name(), "classic");
}

#[test]
fn loads_binary_module() {
    let engine = wasmtime::Engine::default();
    let bytes = [0x00, 0x61, 0x73, 0x6d, 0x01, 0x00, 0x00, 0x00];
    let m = WasmModule::load_from_bytes(&engine, "empty", &bytes)
        .unwrap_or_else(|e| panic!("{}", message(&e)));
    assert!(matches!(m, WasmModule::Classic { .. }));
}

#[test]
fn load_errors() {
    let engine = wasmtime::Engine::default();
    let e = match WasmModule::load_from_bytes(&engine, "junk", b"hello") {
        Err(e) => e,
        Ok(_) => panic!("expected an error"),
    };
    assert_eq!(
        message(&e),
        "File 'junk' does not appear to be a valid WASM module or component"
    );
    let e = match WasmModule::load_from_bytes(&engine, "bad", b"(module (func $f (oops)))") {
        Err(e) => e,
        Ok(_) => panic!("expected an error"),
    };
    assert!(message(&e).starts_with("Failed to parse WAT for module 'bad': "));
    let truncated = [0x00, 0x61, 0x73, 0x6d, 0x01, 0x00, 0x00, 0x00, 0x01];
    let e = match WasmModule::load_from_bytes(&engine, "cut", &truncated) {
        Err(e) => e,
        Ok(_) => panic!("expected an error"),
    };
    assert!(message(&e).starts_with("Failed to compile wasm module 'cut': "));
}

#[test]
fn module_names_and_files() {
    let e = wasm_module_name(&[]).unwrap_err();
    assert_eq!(message(&e), "wasm module name is required");
    assert_eq!(wasm_module_name(&["math".to_string()]).unwrap(), "math");
    assert_eq!(
        wasm_module_name(&["lib".to_string(), "math".to_string(), "ops".to_string()]).unwrap(),
        "lib::math::ops"
    );
    assert_eq!(wasm_registry_key("lib::math"), "wasm::lib::math");
    assert_eq!(choose_wasm_module_file(true, true, "m").unwrap(), WasmModuleFile::Binary);
    assert_eq!(choose_wasm_module_file(false, true, "m").unwrap(), WasmModuleFile::Text);
    let e = choose_wasm_module_file(false, false, "m").unwrap_err();
    assert_eq!(
        message(&e),
        "Failed to find wasm module 'm': neither .wasm nor .wat file found"
    );
}

#[test]
fn binary_programs_are_compiled_as_given() {
    let bytes = [0x00, 0x61, 0x73, 0x6d, 0x01, 0x00, 0x00, 0x00, 0x00, 0x02, 0x61, 0x62];
    let (classic, b) = wasm_binary("m", &bytes).unwrap();
    assert!(classic);
    assert_eq!(b, bytes.to_vec());
    let comp = [0x00, 0x61, 0x73, 0x6d, 0x0d, 0x00, 0x01, 0x00];
    let (classic, b) = wasm_binary("c", &comp).unwrap();
    assert!(!classic);
    assert_eq!(b, comp.to_vec());
}

#[test]
fn text_programs_are_encoded() {
    let (classic, b) = wasm_binary("t", b"(module)").unwrap();
    assert!(classic);
    assert_eq!(b, vec![0x00, 0x61, 0x73, 0x6d, 0x01, 0x00, 0x00, 0x00]);
    let (classic, b) = wasm_binary("c", b" (component)").unwrap();
    assert!(!classic);
    assert_eq!(&b[0..4], &[0x00, 0x61, 0x73, 0x6d]);
    let e = wasm_binary("bad", b"(module (oops))").unwrap_err();
    assert!(message(&e).starts_with("Failed to parse WAT for module 'bad': "));
    let e = wasm_binary("x", b"plain text").unwrap_err();
    assert_eq!(
        message(&e),
        "File 'x' does not appear to be a valid WASM module or component"
    );
}

#[test]
fn load_from_binary_compiles_text() {
    let engine = wasmtime::Engine::default();
    let m = WasmModule::load_from_binary(&engine, "t", b"(module (memory 1))")
        .unwrap_or_else(|e| panic!("{}", message(&e)));
    assert!(matches!(m, WasmModule::Classic { .. }));
}

#[test]
fn registry_answers_second_load_from_cache() {
    let mut reg: WasmRegistry<u32, &str> = WasmRegistry::new(Some("runtime"));
    let key = wasm_registry_key("math");
    assert!(reg.cached(&key).is_none());
    let rt = reg.take_runtime().unwrap();
    assert_eq!(rt, "runtime");
    let e = reg.take_runtime().unwrap_err();
    assert_eq!(message(&e), "WASM runtime not available");
    reg.finish_load(key.clone(), 7, rt);
    assert_eq!(reg.cached(&key), Some(&7));
    assert!(reg.cached("wasm::other").is_none());
    assert_eq!(reg.take_runtime().unwrap(), "runtime");
}
