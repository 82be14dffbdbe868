use gvm::object::{
    Chunk, EnumObject, EnumPayload, FieldMap, FunctionObject, ModuleObject, Object, RuntimeError,
    StructObject,
};
use gvm::structs::{
    execute_build_enum_struct, execute_build_enum_tuple, execute_build_struct,
    execute_call_method, execute_destructure_enum_struct, execute_destructure_enum_tuple,
    execute_get_field, execute_match_enum, execute_set_field, MethodCallResult,
};

fn s(text: &str) -> Object {
    Object::String(text.to_string())
}

fn int_obj(i: i64) -> Object {
    Object::Integer(i)
}

fn func(name: &str, arity: usize) -> Object {
    Object::Function(Box::new(FunctionObject { name: name.to_string(), arity }))
}

fn point_template() -> Object {
    let mut fields = FieldMap::new();
    fields.insert("x".to_string(), int_obj(0));
    fields.insert("y".to_string(), int_obj(0));
    let mut methods = FieldMap::new();
    methods.insert("norm".to_string(), func("Point.norm", 1));
    Object::Struct(Box::new(StructObject { name: "Point".to_string(), fields, methods }))
}

fn error_message(o: &Object) -> String {
    match o {
        Object::Error(e) => match e.as_ref() {
            RuntimeError::InvalidOperation(m) => m.clone(),
        },
        other => panic!("expected an error object, got {:?}", other),
    }
}

fn as_int(o: &Object) -> i64 {
    match o {
        Object::Integer(i) => *i,
        other => panic!("expected an integer, got {:?}", other),
    }
}

fn field_of(o: &Object, name: &str) -> Option<i64> {
    match o {
        Object::Struct(st) => st.fields.get(&name.to_string()).map(as_int),
        other => panic!("expected a struct, got {:?}", other),
    }
}

#[test]
fn get_field_reads_struct_field() {
    let mut stack = vec![point_template(), s("x")];
    execute_get_field(&mut stack);
    assert_eq!(stack.len(), 1);
    assert_eq!(as_int(&stack[0]), 0);
}

#[test]
fn get_field_missing_field_is_null() {
    let mut stack = vec![int_obj(7), point_template(), s("z")];
    execute_get_field(&mut stack);
    assert_eq!(stack.len(), 2);
    assert!(matches!(stack[1], Object::Null));
    assert_eq!(as_int(&stack[0]), 7);
}

#[test]
fn get_field_reads_module_export() {
    let mut exports = FieldMap::new();
    exports.insert("answer".to_string(), int_obj(42));
    let module = Object::Module(Box::new(ModuleObject { name: "m".to_string(), exports }));
    let mut stack = vec![module, s("answer")];
    execute_get_field(&mut stack);
    assert_eq!(as_int(&stack[0]), 42);
}

#[test]
fn get_field_errors() {
    let mut empty: Vec<Object> = vec![];
    execute_get_field(&mut empty);
    assert_eq!(error_message(&empty[0]), "Stack underflow on GetField");

    let mut bad_name = vec![point_template(), int_obj(1)];
    execute_get_field(&mut bad_name);
    assert_eq!(bad_name.len(), 2);
    assert_eq!(error_message(&bad_name[1]), "Field name must be a string");

    let mut only_name = vec![s("x")];
    execute_get_field(&mut only_name);
    assert_eq!(only_name.len(), 1);
    assert_eq!(error_message(&only_name[0]), "Stack underflow on GetField");

    let mut not_struct = vec![int_obj(3), s("x")];
    execute_get_field(&mut not_struct);
    assert_eq!(error_message(&not_struct[0]), "Cannot get field from Int");
}

#[test]
fn set_then_get_returns_written_value() {
    let mut stack = vec![point_template(), s("x"), int_obj(5)];
    execute_set_field(&mut stack);
    assert_eq!(stack.len(), 1);
    assert_eq!(field_of(&stack[0], "x"), Some(5));
    assert_eq!(field_of(&stack[0], "y"), Some(0));
    stack.push(s("x"));
    execute_get_field(&mut stack);
    assert_eq!(as_int(&stack[0]), 5);
}

#[test]
fn set_field_adds_new_field() {
    let mut stack = vec![point_template(), s("z"), int_obj(9)];
    execute_set_field(&mut stack);
    assert_eq!(field_of(&stack[0], "z"), Some(9));
}

#[test]
fn set_field_errors() {
    let mut empty: Vec<Object> = vec![];
    execute_set_field(&mut empty);
    assert_eq!(error_message(&empty[0]), "Stack underflow on SetField");

    let mut one = vec![int_obj(1)];
    execute_set_field(&mut one);
    assert_eq!(one.len(), 1);
    assert_eq!(error_message(&one[0]), "Stack underflow on SetField");

    let mut bad_name = vec![int_obj(0), point_template(), int_obj(1), int_obj(2)];
    execute_set_field(&mut bad_name);
    assert_eq!(bad_name.len(), 3);
    assert_eq!(error_message(&bad_name[2]), "Field name must be a string");

    let mut no_target = vec![s("x"), int_obj(2)];
    execute_set_field(&mut no_target);
    assert_eq!(no_target.len(), 1);
    assert_eq!(error_message(&no_target[0]), "Stack underflow on SetField");

    let mut module_target = vec![
        Object::Module(Box::new(ModuleObject { name: "m".to_string(), exports: FieldMap::new() })),
        s("x"),
        int_obj(2),
    ];
    execute_set_field(&mut module_target);
    assert_eq!(error_message(&module_target[0]), "Cannot set field on Module");
}

#[test]
fn build_struct_overrides_defaults() {
    // [.., name, value, name, value, template]
    let mut stack = vec![int_obj(-1), s("x"), int_obj(3), s("w"), int_obj(4), point_template()];
    execute_build_struct(&mut stack, 2);
    assert_eq!(stack.len(), 2);
    assert_eq!(as_int(&stack[0]), -1);
    assert_eq!(field_of(&stack[1], "x"), Some(3));
    assert_eq!(field_of(&stack[1], "y"), Some(0));
    assert_eq!(field_of(&stack[1], "w"), Some(4));
    match &stack[1] {
        Object::Struct(st) => {
            assert_eq!(st.name, "Point");
            assert!(st.methods.contains_key(&"norm".to_string()));
        }
        other => panic!("expected a struct, got {:?}", other),
    }
}

#[test]
fn build_struct_deeper_pair_wins_for_repeated_name() {
    let mut stack = vec![s("x"), int_obj(1), s("x"), int_obj(2), point_template()];
    execute_build_struct(&mut stack, 2);
    assert_eq!(stack.len(), 1);
    assert_eq!(field_of(&stack[0], "x"), Some(1));
}

#[test]
fn build_struct_errors() {
    let mut short = vec![s("x"), point_template()];
    execute_build_struct(&mut short, 1);
    assert_eq!(short.len(), 3);
    assert_eq!(error_message(&short[2]), "Stack underflow on BuildStruct");

    let mut not_template = vec![s("x"), int_obj(1), int_obj(5)];
    execute_build_struct(&mut not_template, 1);
    assert_eq!(not_template.len(), 3);
    assert_eq!(error_message(&not_template[2]), "Struct template must be a Struct constant");

    let mut bad_name = vec![int_obj(8), int_obj(9), int_obj(1), point_template()];
    execute_build_struct(&mut bad_name, 1);
    assert_eq!(bad_name.len(), 2);
    assert_eq!(as_int(&bad_name[0]), 8);
    assert_eq!(error_message(&bad_name[1]), "Struct field name must be a string");
}

#[test]
fn enum_tuple_build_destructure_and_match() {
    let mut stack = vec![int_obj(0), int_obj(10), int_obj(20), s("Shape"), s("Rect")];
    execute_build_enum_tuple(&mut stack, 2);
    assert_eq!(stack.len(), 2);
    match &stack[1] {
        Object::Enum(e) => {
            assert_eq!(e.enum_name, "Shape");
            assert_eq!(e.variant_name, "Rect");
            match &e.payload {
                EnumPayload::Tuple(args) => {
                    assert_eq!(args.len(), 2);
                    assert_eq!(as_int(&args[0]), 10);
                    assert_eq!(as_int(&args[1]), 20);
                }
                _ => panic!("expected a tuple payload"),
            }
        }
        other => panic!("expected an enum, got {:?}", other),
    }

    let built = stack.pop().unwrap();
    let chunk = Chunk { constants: vec![s("Shape"), s("Rect"), s("Circle"), int_obj(1)] };

    let mut m = vec![rebuild(&built)];
    execute_match_enum(&mut m, &chunk, 0, 1);
    assert!(matches!(m[0], Object::Boolean(true)));

    let mut any = vec![rebuild(&built)];
    execute_match_enum(&mut any, &chunk, u16::MAX, 1);
    assert!(matches!(any[0], Object::Boolean(true)));

    let mut other = vec![rebuild(&built)];
    execute_match_enum(&mut other, &chunk, u16::MAX, 2);
    assert!(matches!(other[0], Object::Boolean(false)));

    let mut d1 = vec![rebuild(&built)];
    execute_destructure_enum_tuple(&mut d1, 1);
    assert_eq!(as_int(&d1[0]), 20);

    let mut d5 = vec![rebuild(&built)];
    execute_destructure_enum_tuple(&mut d5, 5);
    assert!(matches!(d5[0], Object::Null));
}

fn rebuild(o: &Object) -> Object {
    o.deep_clone()
}

#[test]
fn match_enum_errors_and_non_enum() {
    let chunk = Chunk { constants: vec![s("Shape"), int_obj(1)] };
    let mut empty: Vec<Object> = vec![];
    execute_match_enum(&mut empty, &chunk, u16::MAX, 0);
    assert_eq!(error_message(&empty[0]), "Stack underflow on MatchEnum");

    let mut bad_variant = vec![int_obj(3)];
    execute_match_enum(&mut bad_variant, &chunk, u16::MAX, 1);
    assert_eq!(error_message(&bad_variant[0]), "MatchEnum variant name must be a string");

    let mut bad_enum = vec![int_obj(3)];
    execute_match_enum(&mut bad_enum, &chunk, 7, 0);
    assert_eq!(error_message(&bad_enum[0]), "MatchEnum enum name must be a string");

    let mut not_enum = vec![int_obj(3)];
    execute_match_enum(&mut not_enum, &chunk, u16::MAX, 0);
    assert!(matches!(not_enum[0], Object::Boolean(false)));
}

#[test]
fn build_enum_tuple_errors() {
    let mut short = vec![s("E")];
    execute_build_enum_tuple(&mut short, 0);
    assert_eq!(short.len(), 2);
    assert_eq!(error_message(&short[1]), "Stack underflow on BuildEnumTuple");

    let mut bad_variant = vec![s("E"), int_obj(1)];
    execute_build_enum_tuple(&mut bad_variant, 0);
    assert_eq!(bad_variant.len(), 2);
    assert_eq!(error_message(&bad_variant[1]), "Enum variant name must be a string");

    let mut bad_enum = vec![int_obj(1), s("V")];
    execute_build_enum_tuple(&mut bad_enum, 0);
    assert_eq!(bad_enum.len(), 1);
    assert_eq!(error_message(&bad_enum[0]), "Enum name must be a string");
}

#[test]
fn destructure_enum_tuple_errors() {
    let mut empty: Vec<Object> = vec![];
    execute_destructure_enum_tuple(&mut empty, 0);
    assert_eq!(error_message(&empty[0]), "Stack underflow on DestructureEnumTuple");

    let mut not_enum = vec![s("x")];
    execute_destructure_enum_tuple(&mut not_enum, 0);
    assert_eq!(error_message(&not_enum[0]), "Cannot destructure non-enum value String as tuple");

    let unit = Object::Enum(Box::new(EnumObject {
        enum_name: "E".to_string(),
        variant_name: "U".to_string(),
        payload: EnumPayload::Unit,
    }));
    let mut not_tuple = vec![unit];
    execute_destructure_enum_tuple(&mut not_tuple, 0);
    assert_eq!(
        error_message(&not_tuple[0]),
        "Cannot destructure non-tuple enum variant as tuple"
    );
}

#[test]
fn enum_struct_build_and_destructure() {
    let mut stack = vec![s("w"), int_obj(3), s("h"), int_obj(4), s("Shape"), s("Rect")];
    execute_build_enum_struct(&mut stack, 2);
    assert_eq!(stack.len(), 1);
    let built = stack.pop().unwrap();
    let chunk = Chunk { constants: vec![s("w"), s("h"), s("d"), int_obj(0)] };

    let mut w = vec![built.deep_clone()];
    execute_destructure_enum_struct(&mut w, &chunk, 0);
    assert_eq!(as_int(&w[0]), 3);

    let mut h = vec![built.deep_clone()];
    execute_destructure_enum_struct(&mut h, &chunk, 1);
    assert_eq!(as_int(&h[0]), 4);

    let mut d = vec![built.deep_clone()];
    execute_destructure_enum_struct(&mut d, &chunk, 2);
    assert!(matches!(d[0], Object::Null));

    let mut bad = vec![built.deep_clone()];
    execute_destructure_enum_struct(&mut bad, &chunk, 3);
    assert_eq!(error_message(&bad[0]), "DestructureEnumStruct field name must be a string");

    let mut out_of_pool = vec![built];
    execute_destructure_enum_struct(&mut out_of_pool, &chunk, 40);
    assert_eq!(
        error_message(&out_of_pool[0]),
        "DestructureEnumStruct field name must be a string"
    );
}

#[test]
fn build_enum_struct_and_destructure_errors() {
    let mut short = vec![s("E"), s("V")];
    execute_build_enum_struct(&mut short, 1);
    assert_eq!(short.len(), 3);
    assert_eq!(error_message(&short[2]), "Stack underflow on BuildEnumStruct");

    let mut bad_field = vec![int_obj(0), int_obj(1), s("E"), s("V")];
    execute_build_enum_struct(&mut bad_field, 1);
    assert_eq!(bad_field.len(), 1);
    assert_eq!(error_message(&bad_field[0]), "Enum struct field name must be a string");

    let chunk = Chunk { constants: vec![s("w")] };
    let mut empty: Vec<Object> = vec![];
    execute_destructure_enum_struct(&mut empty, &chunk, 0);
    assert_eq!(error_message(&empty[0]), "Stack underflow on DestructureEnumStruct");

    let mut not_enum = vec![int_obj(2)];
    execute_destructure_enum_struct(&mut not_enum, &chunk, 0);
    assert_eq!(error_message(&not_enum[0]), "Cannot destructure non-enum value Int as struct");

    let mut tuple_stack = vec![int_obj(1), s("E"), s("V")];
    execute_build_enum_tuple(&mut tuple_stack, 1);
    execute_destructure_enum_struct(&mut tuple_stack, &chunk, 0);
    assert_eq!(
        error_message(&tuple_stack[0]),
        "Cannot destructure non-struct enum variant as struct"
    );
}

fn no_builtins(_o: Object, name: String, _a: Vec<Object>) -> Result<Object, RuntimeError> {
    Err(RuntimeError::InvalidOperation(format!("no builtin {}", name)))
}

#[test]
fn call_method_on_struct_passes_receiver_first() {
    let mut stack = vec![int_obj(-5), point_template(), s("norm"), int_obj(1), int_obj(2)];
    let r = execute_call_method(&mut stack, 2, no_builtins).unwrap();
    assert!(matches!(r, MethodCallResult::NeedsCall(3)));
    assert_eq!(stack.len(), 5);
    assert_eq!(as_int(&stack[0]), -5);
    match &stack[1] {
        Object::Function(f) => assert_eq!(f.name, "Point.norm"),
        other => panic!("expected the method, got {:?}", other),
    }
    assert!(matches!(stack[2], Object::Struct(_)));
    assert_eq!(as_int(&stack[3]), 1);
    assert_eq!(as_int(&stack[4]), 2);
}

#[test]
fn call_method_on_module_calls_export() {
    let mut exports = FieldMap::new();
    exports.insert("f".to_string(), func("m.f", 1));
    let module = Object::Module(Box::new(ModuleObject { name: "m".to_string(), exports }));
    let mut stack = vec![module, s("f"), int_obj(9)];
    let r = execute_call_method(&mut stack, 1, no_builtins).unwrap();
    assert!(matches!(r, MethodCallResult::NeedsCall(1)));
    assert_eq!(stack.len(), 2);
    assert!(matches!(stack[0], Object::Function(_)));
    assert_eq!(as_int(&stack[1]), 9);

    let mut missing = vec![
        Object::Module(Box::new(ModuleObject { name: "m".to_string(), exports: FieldMap::new() })),
        s("g"),
    ];
    match execute_call_method(&mut missing, 0, no_builtins).unwrap() {
        MethodCallResult::Error(e) => {
            assert_eq!(error_message(&e), "Method 'g' not found on module")
        }
        _ => panic!("expected an error"),
    }
    assert!(missing.is_empty());
}

#[test]
fn call_method_errors() {
    let mut missing_method = vec![point_template(), s("area")];
    match execute_call_method(&mut missing_method, 0, no_builtins).unwrap() {
        MethodCallResult::Error(e) => assert_eq!(error_message(&e), "Method 'area' not found"),
        _ => panic!("expected an error"),
    }

    let mut few_args = vec![int_obj(1)];
    match execute_call_method(&mut few_args, 3, no_builtins).unwrap() {
        MethodCallResult::Error(e) => {
            assert_eq!(error_message(&e), "Stack underflow: missing argument")
        }
        _ => panic!("expected an error"),
    }
    assert!(few_args.is_empty());

    let mut no_name = vec![int_obj(1)];
    match execute_call_method(&mut no_name, 1, no_builtins).unwrap() {
        MethodCallResult::Error(e) => {
            assert_eq!(error_message(&e), "Stack underflow: missing method name")
        }
        _ => panic!("expected an error"),
    }

    let mut bad_name = vec![int_obj(0), int_obj(1), int_obj(2)];
    match execute_call_method(&mut bad_name, 1, no_builtins).unwrap() {
        MethodCallResult::Error(e) => assert_eq!(error_message(&e), "Method name must be a string"),
        _ => panic!("expected an error"),
    }
    assert_eq!(bad_name.len(), 1);

    let mut no_object = vec![s("m")];
    match execute_call_method(&mut no_object, 0, no_builtins).unwrap() {
        MethodCallResult::Error(e) => {
            assert_eq!(error_message(&e), "Stack underflow: missing object")
        }
        _ => panic!("expected an error"),
    }
}

#[test]
fn call_method_runs_builtin_for_other_values() {
    let mut stack = vec![int_obj(1), s("text"), s("len")];
    let r = execute_call_method(&mut stack, 0, |o: Object, name: String, _a: Vec<Object>| {
        match (o, name.as_str()) {
            (Object::String(t), "len") => Ok(Object::Integer(t.len() as i64)),
            _ => Err(RuntimeError::InvalidOperation("unknown".to_string())),
        }
    })
    .unwrap();
    assert!(matches!(r, MethodCallResult::Done));
    assert_eq!(stack.len(), 2);
    assert_eq!(as_int(&stack[1]), 4);

    let mut failing = vec![int_obj(1), int_obj(2), s("abs")];
    match execute_call_method(&mut failing, 0, no_builtins).unwrap() {
        MethodCallResult::Error(e) => assert_eq!(error_message(&e), "no builtin abs"),
        _ => panic!("expected an error"),
    }
    assert_eq!(failing.len(), 1);
}

#[test]
fn field_map_insert_replaces() {
    let mut m = FieldMap::new();
    m.insert("a".to_string(), int_obj(1));
    m.insert("a".to_string(), int_obj(2));
    assert_eq!(m.get(&"a".to_string()).map(as_int), Some(2));
    assert!(!m.contains_key(&"b".to_string()));
    assert_eq!(m.take(&"a".to_string()).map(|o| as_int(&o)), Some(2));
}

#[test]
fn field_map_fill_missing_keeps_own_values() {
    let mut own = FieldMap::new();
    own.insert("a".to_string(), int_obj(1));
    let mut defaults = FieldMap::new();
    defaults.insert("a".to_string(), int_obj(10));
    defaults.insert("b".to_string(), int_obj(20));
    own.fill_missing(defaults);
    assert_eq!(own.get(&"a".to_string()).map(as_int), Some(1));
    assert_eq!(own.get(&"b".to_string()).map(as_int), Some(20));
}

#[test]
fn enum_struct_fields_read_back_by_name() {
    let mut stack = vec![
        int_obj(-3),
        s("a"),
        int_obj(1),
        s("b"),
        int_obj(2),
        s("c"),
        int_obj(3),
        s("E"),
        s("V"),
    ];
    execute_build_enum_struct(&mut stack, 3);
    let built = stack.pop().unwrap();
    let chunk = Chunk { constants: vec![s("a"), s("b"), s("c"), s("z")] };
    for (idx, expected) in [(0u16, Some(1)), (1, Some(2)), (2, Some(3)), (3, None)] {
        let mut st = vec![int_obj(-3), built.deep_clone()];
        execute_destructure_enum_struct(&mut st, &chunk, idx);
        assert_eq!(st.len(), 2);
        assert_eq!(as_int(&st[0]), -3);
        match expected {
            Some(v) => assert_eq!(as_int(&st[1]), v),
            None => assert!(matches!(st[1], Object::Null)),
        }
    }
}
