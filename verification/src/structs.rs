//! Struct and enum instructions of the machine: build, get field, set field,
//! method call, enum construction, matching and destructuring.
//!
//! Each instruction works on the operand stack.  Its effect is stated as a
//! function on the stack's model (`Seq<Value>`, top of stack last).
use vstd::prelude::*;
use vstd::string::StringExecFns;
use crate::object::{
    invalid_value, kind_name_of, lemma_objects_value, lemma_values_prefix, lemma_values_push,
    lookup_or_null, values_of, Chunk, EnumObject, EnumPayload, FieldMap, Object, PayloadValue,
    RuntimeError, StructObject, Value,
};

verus! {

/// Outcome of executing a method call.
#[derive(Debug)]
pub enum MethodCallResult {
    /// The method's function object and its arguments are on the stack; the
    /// count of arguments (the receiver included for struct methods).
    NeedsCall(usize),
    /// A built-in method ran and its result is on the stack.
    Done,
    /// The call failed with this error object.
    Error(Object),
}

/// The field `name` of a struct or module, `Null` when absent, or the error
/// for a value that has no fields.
pub open spec fn field_value(target: Value, name: Seq<char>) -> Value {
    match target {
        Value::Struct { fields, .. } => lookup_or_null(fields, name),
        Value::Module { exports, .. } => lookup_or_null(exports, name),
        _ => invalid_value("Cannot get field from "@ + kind_name_of(target)),
    }
}

/// Effect of `GetField` on a stack `[.., target, name]`.
pub open spec fn get_field_step(s: Seq<Value>) -> Seq<Value> {
    let n = s.len();
    if n == 0 {
        s.push(invalid_value("Stack underflow on GetField"@))
    } else if !(s[n - 1] is Str) {
        s.drop_last().push(invalid_value("Field name must be a string"@))
    } else if n == 1 {
        Seq::empty().push(invalid_value("Stack underflow on GetField"@))
    } else {
        s.subrange(0, n - 2).push(field_value(s[n - 2], s[n - 1]->Str_0))
    }
}

/// Pops the field name and the target, and pushes the target's field (or
/// `Null`, or an error object).
pub fn execute_get_field(stack: &mut Vec<Object>)
    ensures
        values_of(final(stack)@) == get_field_step(values_of(old(stack)@)),
{
    let ghost s0 = stack@;
    proof {
        if s0.len() > 0 {
            lemma_values_prefix(s0, s0.len() - 1);
        }
        if s0.len() > 1 {
            lemma_values_prefix(s0, s0.len() - 2);
        }
    }
    let field_name_obj = match stack.pop() {
        Some(v) => v,
        None => {
            let e = Object::invalid(String::from_str("Stack underflow on GetField"));
            proof {
                lemma_values_push(stack@, e);
            }
            stack.push(e);
            return ;
        },
    };
    let field_name = match field_name_obj {
        Object::String(s) => s,
        _ => {
            let e = Object::invalid(String::from_str("Field name must be a string"));
            proof {
                lemma_values_push(stack@, e);
            }
            stack.push(e);
            return ;
        },
    };
    let struct_obj = match stack.pop() {
        Some(v) => v,
        None => {
            let e = Object::invalid(String::from_str("Stack underflow on GetField"));
            proof {
                lemma_values_push(stack@, e);
            }
            stack.push(e);
            return ;
        },
    };
    let result = match struct_obj {
        Object::Struct(s) => match s.fields.take(&field_name) {
            Some(v) => v,
            None => Object::Null,
        },
        Object::Module(m) => match m.exports.take(&field_name) {
            Some(v) => v,
            None => Object::Null,
        },
        other => {
            let msg = String::from_str("Cannot get field from ").concat(other.kind_name());
            Object::invalid(msg)
        },
    };
    proof {
        lemma_values_push(stack@, result);
    }
    stack.push(result);
}


/// The struct `target` with field `name` set to `v`, or the error for a value
/// that is not a struct.
pub open spec fn set_value(target: Value, name: Seq<char>, v: Value) -> Value {
    match target {
        Value::Struct { name: sname, fields, methods } => Value::Struct {
            name: sname,
            fields: fields.insert(name, v),
            methods,
        },
        _ => invalid_value("Cannot set field on "@ + kind_name_of(target)),
    }
}

/// Effect of `SetField` on a stack `[.., target, name, value]`.
pub open spec fn set_field_step(s: Seq<Value>) -> Seq<Value> {
    let n = s.len();
    if n == 0 {
        s.push(invalid_value("Stack underflow on SetField"@))
    } else if n == 1 {
        Seq::empty().push(invalid_value("Stack underflow on SetField"@))
    } else if !(s[n - 2] is Str) {
        s.subrange(0, n - 2).push(invalid_value("Field name must be a string"@))
    } else if n == 2 {
        Seq::empty().push(invalid_value("Stack underflow on SetField"@))
    } else {
        s.subrange(0, n - 3).push(set_value(s[n - 3], s[n - 2]->Str_0, s[n - 1]))
    }
}

/// Pops the value, the field name and the target struct, and pushes the
/// struct with the field set (or an error object).
pub fn execute_set_field(stack: &mut Vec<Object>)
    ensures
        values_of(final(stack)@) == set_field_step(values_of(old(stack)@)),
{
    let ghost s0 = stack@;
    proof {
        if s0.len() > 1 {
            lemma_values_prefix(s0, s0.len() - 2);
        }
        if s0.len() > 2 {
            lemma_values_prefix(s0, s0.len() - 3);
        }
    }
    let value = match stack.pop() {
        Some(v) => v,
        None => {
            let e = Object::invalid(String::from_str("Stack underflow on SetField"));
            proof {
                lemma_values_push(stack@, e);
            }
            stack.push(e);
            return ;
        },
    };
    let field_name_obj = match stack.pop() {
        Some(v) => v,
        None => {
            let e = Object::invalid(String::from_str("Stack underflow on SetField"));
            proof {
                lemma_values_push(stack@, e);
            }
            stack.push(e);
            return ;
        },
    };
    let field_name = match field_name_obj {
        Object::String(s) => s,
        _ => {
            let e = Object::invalid(String::from_str("Field name must be a string"));
            proof {
                lemma_values_push(stack@, e);
            }
            stack.push(e);
            return ;
        },
    };
    let struct_obj = match stack.pop() {
        Some(v) => v,
        None => {
            let e = Object::invalid(String::from_str("Stack underflow on SetField"));
            proof {
                lemma_values_push(stack@, e);
            }
            stack.push(e);
            return ;
        },
    };
    let result = match struct_obj {
        Object::Struct(s) => {
            let mut st = *s;
            st.fields.insert(field_name, value);
            Object::Struct(Box::new(st))
        },
        other => {
            let msg = String::from_str("Cannot set field on ").concat(other.kind_name());
            Object::invalid(msg)
        },
    };
    proof {
        lemma_values_push(stack@, result);
    }
    stack.push(result);
}

/// Element `index` of an enum's tuple payload (`Null` when out of range), or
/// the error for any other value.
pub open spec fn tuple_field(v: Value, index: int) -> Value {
    match v {
        Value::Enum { payload, .. } => match payload {
            PayloadValue::Tuple(args) => if index < args.len() {
                args[index]
            } else {
                Value::Null
            },
            _ => invalid_value("Cannot destructure non-tuple enum variant as tuple"@),
        },
        _ => invalid_value(
            "Cannot destructure non-enum value "@ + kind_name_of(v) + " as tuple"@,
        ),
    }
}

/// Effect of `DestructureEnumTuple(index)` on a stack `[.., value]`.
pub open spec fn destructure_enum_tuple_step(s: Seq<Value>, index: int) -> Seq<Value> {
    if s.len() == 0 {
        s.push(invalid_value("Stack underflow on DestructureEnumTuple"@))
    } else {
        s.drop_last().push(tuple_field(s.last(), index))
    }
}

/// Pops an enum value and pushes element `field_index` of its tuple payload.
pub fn execute_destructure_enum_tuple(stack: &mut Vec<Object>, field_index: u8)
    ensures
        values_of(final(stack)@) == destructure_enum_tuple_step(
            values_of(old(stack)@),
            field_index as int,
        ),
{
    let ghost s0 = stack@;
    proof {
        if s0.len() > 0 {
            lemma_values_prefix(s0, s0.len() - 1);
        }
    }
    let value = match stack.pop() {
        Some(v) => v,
        None => {
            let e = Object::invalid(String::from_str("Stack underflow on DestructureEnumTuple"));
            proof {
                lemma_values_push(stack@, e);
            }
            stack.push(e);
            return ;
        },
    };
    let result = match value {
        Object::Enum(e) => {
            let eo = *e;
            match eo.payload {
                EnumPayload::Tuple(args) => {
                    proof {
                        lemma_objects_value(args@);
                    }
                    let i = field_index as usize;
                    if i < args.len() {
                        let mut args = args;
                        args.swap_remove(i)
                    } else {
                        Object::Null
                    }
                },
                _ => Object::invalid(
                    String::from_str("Cannot destructure non-tuple enum variant as tuple"),
                ),
            }
        },
        other => {
            let msg = String::from_str("Cannot destructure non-enum value ").concat(
                other.kind_name(),
            ).concat(" as tuple");
            Object::invalid(msg)
        },
    };
    proof {
        lemma_values_push(stack@, result);
    }
    stack.push(result);
}

/// Whether constant `index` of a pool is a string.
pub open spec fn is_str_const(consts: Seq<Value>, index: int) -> bool {
    0 <= index < consts.len() && consts[index] is Str
}

/// The string held by constant `index` of the pool, if it holds one.
fn string_constant(chunk: &Chunk, index: u16) -> (r: Option<&String>)
    ensures
        r is Some <==> is_str_const(values_of(chunk.constants@), index as int),
        r matches Some(name) ==> values_of(chunk.constants@)[index as int] == Value::Str(name@),
{
    let i = index as usize;
    if i < chunk.constants.len() {
        match &chunk.constants[i] {
            Object::String(s) => Some(s),
            _ => None,
        }
    } else {
        None
    }
}

/// Field `name` of an enum's struct payload (`Null` when absent), or the
/// error for any other value.
pub open spec fn struct_field(v: Value, name: Seq<char>) -> Value {
    match v {
        Value::Enum { payload, .. } => match payload {
            PayloadValue::Struct(fields) => lookup_or_null(fields, name),
            _ => invalid_value("Cannot destructure non-struct enum variant as struct"@),
        },
        _ => invalid_value(
            "Cannot destructure non-enum value "@ + kind_name_of(v) + " as struct"@,
        ),
    }
}

/// Effect of `DestructureEnumStruct(name_index)` on a stack `[.., value]`,
/// with constant pool `consts`.
pub open spec fn destructure_enum_struct_step(
    s: Seq<Value>,
    consts: Seq<Value>,
    name_index: int,
) -> Seq<Value> {
    if s.len() == 0 {
        s.push(invalid_value("Stack underflow on DestructureEnumStruct"@))
    } else if !is_str_const(consts, name_index) {
        s.drop_last().push(invalid_value("DestructureEnumStruct field name must be a string"@))
    } else {
        s.drop_last().push(struct_field(s.last(), consts[name_index]->Str_0))
    }
}

/// Pops an enum value and pushes the field of its struct payload named by
/// constant `field_name_idx`.
pub fn execute_destructure_enum_struct(stack: &mut Vec<Object>, chunk: &Chunk, field_name_idx: u16)
    ensures
        values_of(final(stack)@) == destructure_enum_struct_step(
            values_of(old(stack)@),
            values_of(chunk.constants@),
            field_name_idx as int,
        ),
{
    let ghost s0 = stack@;
    proof {
        if s0.len() > 0 {
            lemma_values_prefix(s0, s0.len() - 1);
        }
    }
    let value = match stack.pop() {
        Some(v) => v,
        None => {
            let e = Object::invalid(String::from_str("Stack underflow on DestructureEnumStruct"));
            proof {
                lemma_values_push(stack@, e);
            }
            stack.push(e);
            return ;
        },
    };
    let field_name = match string_constant(chunk, field_name_idx) {
        Some(n) => n,
        None => {
            let e = Object::invalid(
                String::from_str("DestructureEnumStruct field name must be a string"),
            );
            proof {
                lemma_values_push(stack@, e);
            }
            stack.push(e);
            return ;
        },
    };
    let result = match value {
        Object::Enum(e) => {
            let eo = *e;
            match eo.payload {
                EnumPayload::Struct(fields) => match fields.take(field_name) {
                    Some(v) => v,
                    None => Object::Null,
                },
                _ => Object::invalid(
                    String::from_str("Cannot destructure non-struct enum variant as struct"),
                ),
            }
        },
        other => {
            let msg = String::from_str("Cannot destructure non-enum value ").concat(
                other.kind_name(),
            ).concat(" as struct");
            Object::invalid(msg)
        },
    };
    proof {
        lemma_values_push(stack@, result);
    }
    stack.push(result);
}


/// Whether `v` is a value of variant `variant` of an enum, and, when
/// `enum_name` is given, of that enum.
pub open spec fn enum_matches(v: Value, enum_name: Option<Seq<char>>, variant: Seq<char>) -> bool {
    match v {
        Value::Enum { enum_name: en, variant_name: vn, .. } => vn == variant && match enum_name {
            Some(name) => en == name,
            None => true,
        },
        _ => false,
    }
}

/// The constant index that stands for "any enum" in `MatchEnum`.
pub open spec fn any_enum_index() -> int {
    0xFFFF
}

/// Effect of `MatchEnum(enum_name_idx, variant_name_idx)` on a stack
/// `[.., value]`, with constant pool `consts`.
pub open spec fn match_enum_step(
    s: Seq<Value>,
    consts: Seq<Value>,
    enum_name_idx: int,
    variant_name_idx: int,
) -> Seq<Value> {
    if s.len() == 0 {
        s.push(invalid_value("Stack underflow on MatchEnum"@))
    } else if !is_str_const(consts, variant_name_idx) {
        s.drop_last().push(invalid_value("MatchEnum variant name must be a string"@))
    } else if enum_name_idx != any_enum_index() && !is_str_const(consts, enum_name_idx) {
        s.drop_last().push(invalid_value("MatchEnum enum name must be a string"@))
    } else {
        let enum_name = if enum_name_idx == any_enum_index() {
            None
        } else {
            Some(consts[enum_name_idx]->Str_0)
        };
        s.drop_last().push(
            Value::Boolean(enum_matches(s.last(), enum_name, consts[variant_name_idx]->Str_0)),
        )
    }
}

/// Pops a value and pushes whether it is the enum variant named by the
/// constants (any enum when `enum_name_idx` is `u16::MAX`).
pub fn execute_match_enum(
    stack: &mut Vec<Object>,
    chunk: &Chunk,
    enum_name_idx: u16,
    variant_name_idx: u16,
)
    ensures
        values_of(final(stack)@) == match_enum_step(
            values_of(old(stack)@),
            values_of(chunk.constants@),
            enum_name_idx as int,
            variant_name_idx as int,
        ),
{
    let ghost s0 = stack@;
    proof {
        if s0.len() > 0 {
            lemma_values_prefix(s0, s0.len() - 1);
        }
    }
    let value = match stack.pop() {
        Some(v) => v,
        None => {
            let e = Object::invalid(String::from_str("Stack underflow on MatchEnum"));
            proof {
                lemma_values_push(stack@, e);
            }
            stack.push(e);
            return ;
        },
    };
    let variant_name = match string_constant(chunk, variant_name_idx) {
        Some(n) => n,
        None => {
            let e = Object::invalid(String::from_str("MatchEnum variant name must be a string"));
            proof {
                lemma_values_push(stack@, e);
            }
            stack.push(e);
            return ;
        },
    };
    let enum_name = if enum_name_idx != u16::MAX {
        match string_constant(chunk, enum_name_idx) {
            Some(n) => Some(n),
            None => {
                let e = Object::invalid(String::from_str("MatchEnum enum name must be a string"));
                proof {
                    lemma_values_push(stack@, e);
                }
                stack.push(e);
                return ;
            },
        }
    } else {
        None
    };
    let matches = match value {
        Object::Enum(e) => {
            let variant_matches = e.variant_name == *variant_name;
            let enum_matches = match enum_name {
                Some(name) => e.enum_name == *name,
                None => true,
            };
            variant_matches && enum_matches
        },
        _ => false,
    };
    let r = Object::Boolean(matches);
    proof {
        lemma_values_push(stack@, r);
    }
    stack.push(r);
}

/// Effect of `BuildEnumTuple(arg_count)` on a stack
/// `[.., arg_1, .., arg_n, enum_name, variant_name]`.
pub open spec fn build_enum_tuple_step(s: Seq<Value>, arg_count: int) -> Seq<Value> {
    let n = s.len();
    if n < arg_count + 2 {
        s.push(invalid_value("Stack underflow on BuildEnumTuple"@))
    } else if !(s[n - 1] is Str) {
        s.drop_last().push(invalid_value("Enum variant name must be a string"@))
    } else if !(s[n - 2] is Str) {
        s.subrange(0, n - 2).push(invalid_value("Enum name must be a string"@))
    } else {
        s.subrange(0, n - 2 - arg_count).push(
            Value::Enum {
                enum_name: s[n - 2]->Str_0,
                variant_name: s[n - 1]->Str_0,
                payload: PayloadValue::Tuple(s.subrange(n - 2 - arg_count, n - 2)),
            },
        )
    }
}

/// Pops the variant name, the enum name and `arg_count` arguments, and pushes
/// the enum value with those arguments, in stack order, as its payload.
pub fn execute_build_enum_tuple(stack: &mut Vec<Object>, arg_count: u8)
    ensures
        values_of(final(stack)@) == build_enum_tuple_step(
            values_of(old(stack)@),
            arg_count as int,
        ),
{
    let ghost s0 = stack@;
    let ghost n = s0.len() as int;
    let ghost ac = arg_count as int;
    let arg_count = arg_count as usize;
    if stack.len() < arg_count + 2 {
        let e = Object::invalid(String::from_str("Stack underflow on BuildEnumTuple"));
        proof {
            lemma_values_push(stack@, e);
        }
        stack.push(e);
        return ;
    }
    proof {
        lemma_values_prefix(s0, n - 1);
        lemma_values_prefix(s0, n - 2);
        lemma_values_prefix(s0, n - 2 - ac);
    }
    let variant_name = match stack.pop() {
        Some(Object::String(s)) => s,
        _ => {
            let e = Object::invalid(String::from_str("Enum variant name must be a string"));
            proof {
                lemma_values_push(stack@, e);
            }
            stack.push(e);
            return ;
        },
    };
    let enum_name = match stack.pop() {
        Some(Object::String(s)) => s,
        _ => {
            let e = Object::invalid(String::from_str("Enum name must be a string"));
            proof {
                lemma_values_push(stack@, e);
            }
            stack.push(e);
            return ;
        },
    };
    // Pop the arguments (top first), then reverse them into stack order.
    let mut popped: Vec<Object> = Vec::new();
    let mut i: usize = 0;
    while i < arg_count
        invariant
            i <= arg_count,
            arg_count == ac,
            n == s0.len(),
            n >= ac + 2,
            stack@ == s0.subrange(0, n - 2 - i),
            popped@.len() == i,
            forall|j: int| 0 <= j < i ==> #[trigger] popped@[j] == s0[n - 3 - j],
        decreases arg_count - i,
    {
        let v = stack.pop().unwrap();
        popped.push(v);
        i = i + 1;
    }
    let mut args: Vec<Object> = Vec::new();
    while popped.len() > 0
        invariant
            arg_count == ac,
            n == s0.len(),
            n >= ac + 2,
            popped@.len() + args@.len() == ac,
            forall|j: int| 0 <= j < popped@.len() ==> #[trigger] popped@[j] == s0[n - 3 - j],
            args@ == s0.subrange(n - 2 - ac, n - 2 - popped@.len()),
        decreases popped@.len(),
    {
        let ghost k = popped@.len() as int;
        let v = popped.pop().unwrap();
        args.push(v);
        assert(args@ =~= s0.subrange(n - 2 - ac, n - 2 - (k - 1)));
    }
    proof {
        lemma_objects_value(args@);
        assert(values_of(args@) =~= values_of(s0).subrange(n - 2 - ac, n - 2));
    }
    let r = Object::Enum(
        Box::new(EnumObject { enum_name, variant_name, payload: EnumPayload::Tuple(args) }),
    );
    proof {
        lemma_values_push(stack@, r);
    }
    stack.push(r);
}


/// Outcome of popping `count` (value, name) pairs off a stack, value on top.
pub enum PairScan {
    /// Every name was a string: the fields, a later-popped (deeper) pair
    /// winning over an earlier one, and the stack left below the pairs.
    Fields(Map<Seq<char>, Value>, Seq<Value>),
    /// A popped name was not a string: the stack left after that pair.
    BadName(Seq<Value>),
    /// The stack ran out before `count` pairs were popped.
    Underflow,
}

/// Pops `count` (value, name) pairs off the stack model `t`.
pub open spec fn scan_pairs(t: Seq<Value>, count: nat) -> PairScan
    decreases count,
{
    if count == 0 {
        PairScan::Fields(Map::empty(), t)
    } else if t.len() < 2 {
        PairScan::Underflow
    } else {
        let n = t.len();
        if t[n - 2] is Str {
            match scan_pairs(t.subrange(0, n - 2), (count - 1) as nat) {
                PairScan::Fields(m, r) => PairScan::Fields(
                    Map::empty().insert(t[n - 2]->Str_0, t[n - 1]).union_prefer_right(m),
                    r,
                ),
                other => other,
            }
        } else {
            PairScan::BadName(t.subrange(0, n - 2))
        }
    }
}

/// A scan whose fields are laid over `first`.
pub open spec fn scan_over(first: Map<Seq<char>, Value>, scan: PairScan) -> PairScan {
    match scan {
        PairScan::Fields(m, r) => PairScan::Fields(first.union_prefer_right(m), r),
        other => other,
    }
}

/// A stack holding at least `count` pairs never runs out while they are popped.
pub proof fn lemma_scan_pairs_no_underflow(t: Seq<Value>, count: nat)
    requires
        t.len() >= 2 * count,
    ensures
        !(scan_pairs(t, count) is Underflow),
    decreases count,
{
    if count > 0 {
        lemma_scan_pairs_no_underflow(t.subrange(0, t.len() - 2), (count - 1) as nat);
    }
}

/// Pops `count` (value, name) pairs.  Returns the fields, or `None` when a
/// name is not a string (the stack is then left as it was after that pair).
fn pop_field_pairs(stack: &mut Vec<Object>, count: usize) -> (r: Option<FieldMap>)
    requires
        !(scan_pairs(values_of(old(stack)@), count as nat) is Underflow),
    ensures
        match scan_pairs(values_of(old(stack)@), count as nat) {
            PairScan::Fields(m, rest) => r matches Some(f) && f@ == m && values_of(final(stack)@)
                == rest,
            PairScan::BadName(rest) => r is None && values_of(final(stack)@) == rest,
            PairScan::Underflow => false,
        },
{
    let ghost total = scan_pairs(values_of(stack@), count as nat);
    let mut fields = FieldMap::new();
    let mut i: usize = 0;
    proof {
        assert(Map::<Seq<char>, Value>::empty().union_prefer_right(Map::empty()) =~= Map::<
            Seq<char>,
            Value,
        >::empty());
        match scan_pairs(values_of(stack@), count as nat) {
            PairScan::Fields(m, r) => {
                assert(Map::<Seq<char>, Value>::empty().union_prefer_right(m) =~= m);
            },
            _ => {},
        }
    }
    while i < count
        invariant
            i <= count,
            total == scan_pairs(values_of(old(stack)@), count as nat),
            total == scan_over(fields@, scan_pairs(values_of(stack@), (count - i) as nat)),
            !(total is Underflow),
        decreases count - i,
    {
        let ghost cur = values_of(stack@);
        let ghost c = (count - i) as nat;
        let ghost n = cur.len() as int;
        let ghost ss = stack@;
        proof {
            assert(n >= 2);
            lemma_values_prefix(ss, n - 2);
            assert(cur[n - 1] == ss[n - 1]@);
            assert(cur[n - 2] == ss[n - 2]@);
        }
        let value = stack.pop().unwrap();
        let name_obj = stack.pop().unwrap();
        assert(stack@ == ss.subrange(0, n - 2));
        let name = match name_obj {
            Object::String(s) => s,
            _ => {
                assert(!(cur[n - 2] is Str));
                return None;
            },
        };
        let ghost prev = fields@;
        fields.insert(name, value);
        proof {
            let first = Map::<Seq<char>, Value>::empty().insert(cur[n - 2]->Str_0, cur[n - 1]);
            match scan_pairs(cur.subrange(0, n - 2), (c - 1) as nat) {
                PairScan::Fields(m, r) => {
                    assert(prev.union_prefer_right(first.union_prefer_right(m)) =~= fields@.union_prefer_right(m));
                },
                _ => {},
            }
        }
        i = i + 1;
    }
    Some(fields)
}

/// The struct built from `template` with the given fields laid over the
/// template's default fields.
pub open spec fn built_struct(template: Value, given: Map<Seq<char>, Value>) -> Value {
    match template {
        Value::Struct { name, fields, methods } => Value::Struct {
            name,
            fields: fields.union_prefer_right(given),
            methods,
        },
        _ => template,
    }
}

/// Whether `BuildStruct(field_count)` would run out of stack while popping
/// the field pairs (the size check before it does not cover them all).
pub open spec fn build_struct_underflows(s: Seq<Value>, field_count: int) -> bool {
    let n = s.len();
    &&& n >= field_count + 2
    &&& s[n - 1] is Struct
    &&& scan_pairs(s.drop_last(), field_count as nat) is Underflow
}

/// Effect of `BuildStruct(field_count)` on a stack
/// `[.., name_1, value_1, .., name_k, value_k, template]`.
pub open spec fn build_struct_step(s: Seq<Value>, field_count: int) -> Seq<Value> {
    let n = s.len();
    if n < field_count + 2 {
        s.push(invalid_value("Stack underflow on BuildStruct"@))
    } else if !(s[n - 1] is Struct) {
        s.drop_last().push(invalid_value("Struct template must be a Struct constant"@))
    } else {
        match scan_pairs(s.drop_last(), field_count as nat) {
            PairScan::Fields(m, r) => r.push(built_struct(s[n - 1], m)),
            PairScan::BadName(r) => r.push(invalid_value("Struct field name must be a string"@)),
            PairScan::Underflow => s,
        }
    }
}

/// Pops a struct template and `field_count` (name, value) pairs, and pushes a
/// struct with the template's name and methods whose fields are the given
/// ones over the template's defaults.
pub fn execute_build_struct(stack: &mut Vec<Object>, field_count: u8)
    requires
        !build_struct_underflows(values_of(old(stack)@), field_count as int),
    ensures
        values_of(final(stack)@) == build_struct_step(values_of(old(stack)@), field_count as int),
{
    let ghost s0 = stack@;
    let field_count = field_count as usize;
    if stack.len() < field_count + 2 {
        let e = Object::invalid(String::from_str("Stack underflow on BuildStruct"));
        proof {
            lemma_values_push(stack@, e);
        }
        stack.push(e);
        return ;
    }
    proof {
        lemma_values_prefix(s0, s0.len() - 1);
    }
    let template = match stack.pop() {
        Some(Object::Struct(t)) => t,
        _ => {
            let e = Object::invalid(String::from_str("Struct template must be a Struct constant"));
            proof {
                lemma_values_push(stack@, e);
            }
            stack.push(e);
            return ;
        },
    };
    let template = *template;
    let mut fields = match pop_field_pairs(stack, field_count) {
        Some(f) => f,
        None => {
            let e = Object::invalid(String::from_str("Struct field name must be a string"));
            proof {
                lemma_values_push(stack@, e);
            }
            stack.push(e);
            return ;
        },
    };
    fields.fill_missing(template.fields);
    let r = Object::Struct(
        Box::new(StructObject { name: template.name, fields, methods: template.methods }),
    );
    proof {
        lemma_values_push(stack@, r);
    }
    stack.push(r);
}

/// Effect of `BuildEnumStruct(field_count)` on a stack
/// `[.., name_1, value_1, .., name_k, value_k, enum_name, variant_name]`.
pub open spec fn build_enum_struct_step(s: Seq<Value>, field_count: int) -> Seq<Value> {
    let n = s.len();
    if n < field_count * 2 + 2 {
        s.push(invalid_value("Stack underflow on BuildEnumStruct"@))
    } else if !(s[n - 1] is Str) {
        s.drop_last().push(invalid_value("Enum variant name must be a string"@))
    } else if !(s[n - 2] is Str) {
        s.subrange(0, n - 2).push(invalid_value("Enum name must be a string"@))
    } else {
        match scan_pairs(s.subrange(0, n - 2), field_count as nat) {
            PairScan::Fields(m, r) => r.push(
                Value::Enum {
                    enum_name: s[n - 2]->Str_0,
                    variant_name: s[n - 1]->Str_0,
                    payload: PayloadValue::Struct(m),
                },
            ),
            PairScan::BadName(r) => r.push(
                invalid_value("Enum struct field name must be a string"@),
            ),
            PairScan::Underflow => s,
        }
    }
}

/// Pops the variant name, the enum name and `field_count` (name, value)
/// pairs, and pushes the enum value with those fields as its payload.
pub fn execute_build_enum_struct(stack: &mut Vec<Object>, field_count: u8)
    ensures
        values_of(final(stack)@) == build_enum_struct_step(
            values_of(old(stack)@),
            field_count as int,
        ),
{
    let ghost s0 = stack@;
    let field_count = field_count as usize;
    if stack.len() < field_count * 2 + 2 {
        let e = Object::invalid(String::from_str("Stack underflow on BuildEnumStruct"));
        proof {
            lemma_values_push(stack@, e);
        }
        stack.push(e);
        return ;
    }
    proof {
        lemma_values_prefix(s0, s0.len() - 1);
        lemma_values_prefix(s0, s0.len() - 2);
    }
    let variant_name = match stack.pop() {
        Some(Object::String(s)) => s,
        _ => {
            let e = Object::invalid(String::from_str("Enum variant name must be a string"));
            proof {
                lemma_values_push(stack@, e);
            }
            stack.push(e);
            return ;
        },
    };
    let enum_name = match stack.pop() {
        Some(Object::String(s)) => s,
        _ => {
            let e = Object::invalid(String::from_str("Enum name must be a string"));
            proof {
                lemma_values_push(stack@, e);
            }
            stack.push(e);
            return ;
        },
    };
    proof {
        assert(stack@ =~= s0.subrange(0, s0.len() - 2));
        lemma_scan_pairs_no_underflow(values_of(stack@), field_count as nat);
    }
    let fields = match pop_field_pairs(stack, field_count) {
        Some(f) => f,
        None => {
            let e = Object::invalid(String::from_str("Enum struct field name must be a string"));
            proof {
                lemma_values_push(stack@, e);
            }
            stack.push(e);
            return ;
        },
    };
    let r = Object::Enum(
        Box::new(EnumObject { enum_name, variant_name, payload: EnumPayload::Struct(fields) }),
    );
    proof {
        lemma_values_push(stack@, r);
    }
    stack.push(r);
}


/// What a method call comes to, on the stack model `s` with `argc` arguments
/// above the method name and the receiver.
pub enum CallOutcome {
    /// The callee and its arguments are laid out on the new stack, with this
    /// many arguments.
    Call(Seq<Value>, nat),
    /// The call fails with this error, leaving this stack.
    Fail(Value, Seq<Value>),
    /// A built-in method of the receiver is to run: the receiver, the method
    /// name, the arguments in order, and the stack below the receiver.
    Builtin(Value, Seq<char>, Seq<Value>, Seq<Value>),
}

/// What `CallMethod(argc)` does on a stack
/// `[.., receiver, method_name, arg_1, .., arg_argc]`.
pub open spec fn call_method_outcome(s: Seq<Value>, argc: int) -> CallOutcome {
    let n = s.len();
    if n < argc {
        CallOutcome::Fail(invalid_value("Stack underflow: missing argument"@), Seq::empty())
    } else if n == argc {
        CallOutcome::Fail(invalid_value("Stack underflow: missing method name"@), Seq::empty())
    } else if !(s[n - argc - 1] is Str) {
        CallOutcome::Fail(
            invalid_value("Method name must be a string"@),
            s.subrange(0, n - argc - 1),
        )
    } else if n == argc + 1 {
        CallOutcome::Fail(invalid_value("Stack underflow: missing object"@), Seq::empty())
    } else {
        let name = s[n - argc - 1]->Str_0;
        let receiver = s[n - argc - 2];
        let args = s.subrange(n - argc, n as int);
        let rest = s.subrange(0, n - argc - 2);
        match receiver {
            Value::Struct { methods, .. } => if methods.contains_key(name) {
                CallOutcome::Call(rest.push(methods[name]).push(receiver) + args, (argc + 1) as nat)
            } else {
                CallOutcome::Fail(invalid_value("Method '"@ + name + "' not found"@), rest)
            },
            Value::Module { exports, .. } => if exports.contains_key(name) {
                CallOutcome::Call(rest.push(exports[name]) + args, argc as nat)
            } else {
                CallOutcome::Fail(
                    invalid_value("Method '"@ + name + "' not found on module"@),
                    rest,
                )
            },
            _ => CallOutcome::Builtin(receiver, name, args, rest),
        }
    }
}

/// Moves the objects of `popped` back onto `dst`, the last popped first.
fn push_back_popped(dst: &mut Vec<Object>, popped: Vec<Object>)
    ensures
        final(dst)@.len() == old(dst)@.len() + popped@.len(),
        forall|j: int| 0 <= j < old(dst)@.len() ==> #[trigger] final(dst)@[j] == old(dst)@[j],
        forall|j: int|
            0 <= j < popped@.len() ==> #[trigger] final(dst)@[old(dst)@.len() + j] == popped@[popped@.len()
                - 1 - j],
{
    let mut popped = popped;
    let ghost p0 = popped@;
    let ghost d0 = dst@;
    while popped.len() > 0
        invariant
            popped@.len() <= p0.len(),
            popped@ == p0.subrange(0, popped@.len() as int),
            dst@.len() == d0.len() + (p0.len() - popped@.len()),
            forall|j: int| 0 <= j < d0.len() ==> #[trigger] dst@[j] == d0[j],
            forall|j: int|
                0 <= j < p0.len() - popped@.len() ==> #[trigger] dst@[d0.len() + j] == p0[p0.len() - 1 - j],
        decreases popped@.len(),
    {
        let ghost k = popped@.len() as int;
        let v = popped.pop().unwrap();
        assert(v == p0[k - 1]);
        assert(popped@ =~= p0.subrange(0, k - 1));
        dst.push(v);
    }
}

/// Calls method `name` of the receiver below it on the stack.  For a struct,
/// pushes the method, the receiver and the arguments (the receiver becomes
/// the first argument); for a module, pushes the exported function and the
/// arguments; for any other value, runs the built-in method through
/// `builtin` (receiver, method name, arguments in order) and pushes its result.
pub fn execute_call_method<F>(stack: &mut Vec<Object>, argc: usize, builtin: F) -> (r: Result<
    MethodCallResult,
    RuntimeError,
>) where F: Fn(Object, String, Vec<Object>) -> Result<Object, RuntimeError>
    requires
        forall|o: Object, name: String, args: Vec<Object>|
            #[trigger] call_requires(builtin, (o, name, args)),
    ensures
        match call_method_outcome(values_of(old(stack)@), argc as int) {
            CallOutcome::Call(st, k) => r == Ok::<MethodCallResult, RuntimeError>(
                MethodCallResult::NeedsCall(k as usize),
            ) && values_of(final(stack)@) == st,
            CallOutcome::Fail(e, st) => r matches Ok(MethodCallResult::Error(o)) && o@ == e
                && values_of(final(stack)@) == st,
            CallOutcome::Builtin(receiver, name, args, rest) => exists|
                o: Object,
                nm: String,
                a: Vec<Object>,
                out: Result<Object, RuntimeError>,
            |
                {
                    &&& #[trigger] call_ensures(builtin, (o, nm, a), out)
                    &&& o@ == receiver
                    &&& nm@ == name
                    &&& values_of(a@) == args
                    &&& match out {
                        Ok(v) => r matches Ok(MethodCallResult::Done) && values_of(final(stack)@)
                            == rest.push(v@),
                        Err(e) => r matches Ok(MethodCallResult::Error(eo)) && eo@ == Value::Error(
                            e@,
                        ) && values_of(final(stack)@) == rest,
                    }
                },
        },
{
    let ghost s0 = stack@;
    let ghost n = s0.len() as int;
    assert(n == stack.len());
    // Pop the arguments, top first.
    let mut popped: Vec<Object> = Vec::new();
    let mut i: usize = 0;
    while i < argc
        invariant
            i <= argc,
            s0 == old(stack)@,
            n == s0.len(),
            i <= n,
            stack@ == s0.subrange(0, n - i),
            popped@.len() == i,
            forall|j: int| 0 <= j < i ==> #[trigger] popped@[j] == s0[n - 1 - j],
        decreases argc - i,
    {
        match stack.pop() {
            Some(v) => {
                popped.push(v);
            },
            None => {
                assert(values_of(stack@) =~= Seq::<Value>::empty());
                let e = Object::invalid(String::from_str("Stack underflow: missing argument"));
                return Ok(MethodCallResult::Error(e));
            },
        }
        i = i + 1;
    }
    let ghost vals = values_of(s0);
    let method_name_obj = match stack.pop() {
        Some(v) => v,
        None => {
            assert(values_of(stack@) =~= Seq::<Value>::empty());
            let e = Object::invalid(String::from_str("Stack underflow: missing method name"));
            return Ok(MethodCallResult::Error(e));
        },
    };
    proof {
        lemma_values_prefix(s0, n - argc - 1);
        assert(stack@ =~= s0.subrange(0, n - argc - 1));
    }
    let method_name = match method_name_obj {
        Object::String(s) => s,
        _ => {
            let e = Object::invalid(String::from_str("Method name must be a string"));
            return Ok(MethodCallResult::Error(e));
        },
    };
    let struct_obj = match stack.pop() {
        Some(v) => v,
        None => {
            assert(values_of(stack@) =~= Seq::<Value>::empty());
            let e = Object::invalid(String::from_str("Stack underflow: missing object"));
            return Ok(MethodCallResult::Error(e));
        },
    };
    proof {
        lemma_values_prefix(s0, n - argc - 2);
        assert(stack@ =~= s0.subrange(0, n - argc - 2));
    }
    let ghost rest = vals.subrange(0, n - argc - 2);
    let ghost args_v = vals.subrange(n - argc, n);
    let ghost receiver = struct_obj@;
    match struct_obj {
        Object::Struct(s) => {
            let found = match s.methods.get(&method_name) {
                Some(m) => Some(m.deep_clone()),
                None => None,
            };
            match found {
                Some(method) => {
                    let ghost mv = method@;
                    stack.push(method);
                    stack.push(Object::Struct(s));
                    let ghost before = stack@;
                    push_back_popped(stack, popped);
                    proof {
                        let target = rest.push(mv).push(receiver) + args_v;
                        let b = rest.len() as int;
                        assert(values_of(stack@).len() == target.len());
                        assert forall|j: int| 0 <= j < target.len() implies values_of(stack@)[j]
                            == target[j] by {
                            if j < b + 2 {
                                assert(stack@[j] == before[j]);
                            } else {
                                let k = j - (b + 2);
                                assert(stack@[before.len() + k] == popped@[argc - 1 - k]);
                            }
                        }
                        assert(values_of(stack@) =~= target);
                    }
                    Ok(MethodCallResult::NeedsCall(argc + 1))
                },
                None => {
                    let msg = String::from_str("Method '").concat(method_name.as_str()).concat(
                        "' not found",
                    );
                    Ok(MethodCallResult::Error(Object::invalid(msg)))
                },
            }
        },
        Object::Module(m) => {
            let found = match m.exports.get(&method_name) {
                Some(f) => Some(f.deep_clone()),
                None => None,
            };
            match found {
                Some(method) => {
                    let ghost mv = method@;
                    stack.push(method);
                    let ghost before = stack@;
                    push_back_popped(stack, popped);
                    proof {
                        let target = rest.push(mv) + args_v;
                        let b = rest.len() as int;
                        assert(values_of(stack@).len() == target.len());
                        assert forall|j: int| 0 <= j < target.len() implies values_of(stack@)[j]
                            == target[j] by {
                            if j < b + 1 {
                                assert(stack@[j] == before[j]);
                            } else {
                                let k = j - (b + 1);
                                assert(stack@[before.len() + k] == popped@[argc - 1 - k]);
                            }
                        }
                        assert(values_of(stack@) =~= target);
                    }
                    Ok(MethodCallResult::NeedsCall(argc))
                },
                None => {
                    let msg = String::from_str("Method '").concat(method_name.as_str()).concat(
                        "' not found on module",
                    );
                    Ok(MethodCallResult::Error(Object::invalid(msg)))
                },
            }
        },
        other => {
            let mut args: Vec<Object> = Vec::new();
            push_back_popped(&mut args, popped);
            proof {
                assert forall|j: int| 0 <= j < args_v.len() implies values_of(args@)[j]
                    == args_v[j] by {
                    assert(args@[0 + j] == popped@[argc - 1 - j]);
                }
                assert(values_of(args@) =~= args_v);
            }
            let ghost o = other;
            let ghost nm = method_name;
            let ghost a = args;
            let out = builtin(other, method_name, args);
            match out {
                Ok(result) => {
                    proof {
                        lemma_values_push(stack@, result);
                    }
                    stack.push(result);
                    Ok(MethodCallResult::Done)
                },
                Err(e) => Ok(MethodCallResult::Error(Object::Error(Box::new(e)))),
            }
        },
    }
}


// ---------------------------------------------------------------------------
// Laws of the instructions.
// ---------------------------------------------------------------------------

/// `t` is `s` cut down to a prefix with exactly one value pushed on it.
pub open spec fn pushes_one_over_prefix(s: Seq<Value>, t: Seq<Value>) -> bool {
    &&& t.len() >= 1
    &&& t.len() - 1 <= s.len()
    &&& t.drop_last() == s.subrange(0, t.len() - 1)
}

/// Each of the void instructions leaves the stack below its operands as it
/// was and pushes exactly one value (its result or an error object).
pub proof fn law_single_result(s: Seq<Value>, count: u8, consts: Seq<Value>, i1: u16, i2: u16)
    requires
        !build_struct_underflows(s, count as int),
    ensures
        pushes_one_over_prefix(s, get_field_step(s)),
        pushes_one_over_prefix(s, set_field_step(s)),
        pushes_one_over_prefix(s, build_struct_step(s, count as int)),
        pushes_one_over_prefix(s, build_enum_struct_step(s, count as int)),
        pushes_one_over_prefix(s, build_enum_tuple_step(s, count as int)),
        pushes_one_over_prefix(s, match_enum_step(s, consts, i1 as int, i2 as int)),
        pushes_one_over_prefix(s, destructure_enum_tuple_step(s, count as int)),
        pushes_one_over_prefix(s, destructure_enum_struct_step(s, consts, i1 as int)),
{
    lemma_get_set_single_result(s);
    lemma_build_struct_single_result(s, count);
    lemma_build_enum_single_result(s, count);
    lemma_one_operand_single_result(s, count, consts, i1, i2);
}

/// A stack of the form `prefix.push(x)` with `prefix` a prefix of `s`.
proof fn lemma_single_result_of(s: Seq<Value>, t: Seq<Value>)
    requires
        t.len() >= 1,
        t.len() - 1 <= s.len(),
        t.drop_last() =~= s.subrange(0, t.len() - 1),
    ensures
        pushes_one_over_prefix(s, t),
{
}

/// `BuildStruct` pushes one value over a prefix of the stack.
proof fn lemma_build_struct_single_result(s: Seq<Value>, count: u8)
    requires
        !build_struct_underflows(s, count as int),
    ensures
        pushes_one_over_prefix(s, build_struct_step(s, count as int)),
{
    let n = s.len() as int;
    let t = build_struct_step(s, count as int);
    if n < count + 2 {
        assert(t.drop_last() =~= s.subrange(0, n));
    } else if !(s[n - 1] is Struct) {
        assert(t.drop_last() =~= s.subrange(0, n - 1));
    } else {
        let d = s.drop_last();
        lemma_scan_prefix(d, count as nat);
        match scan_pairs(d, count as nat) {
            PairScan::Fields(_, r) => {
                assert(t.drop_last() =~= s.subrange(0, r.len() as int));
            },
            PairScan::BadName(r) => {
                assert(t.drop_last() =~= s.subrange(0, r.len() as int));
            },
            PairScan::Underflow => {},
        }
    }
    lemma_single_result_of(s, t);
}

/// `BuildEnumStruct` and `BuildEnumTuple` push one value over a prefix of
/// the stack.
proof fn lemma_build_enum_single_result(s: Seq<Value>, count: u8)
    ensures
        pushes_one_over_prefix(s, build_enum_struct_step(s, count as int)),
        pushes_one_over_prefix(s, build_enum_tuple_step(s, count as int)),
{
    let n = s.len() as int;
    let t = build_enum_struct_step(s, count as int);
    if n < count * 2 + 2 {
        assert(t.drop_last() =~= s.subrange(0, n));
    } else if !(s[n - 1] is Str) {
        assert(t.drop_last() =~= s.subrange(0, n - 1));
    } else if !(s[n - 2] is Str) {
        assert(t.drop_last() =~= s.subrange(0, n - 2));
    } else {
        let d = s.subrange(0, n - 2);
        lemma_scan_prefix(d, count as nat);
        lemma_scan_pairs_no_underflow(d, count as nat);
        match scan_pairs(d, count as nat) {
            PairScan::Fields(_, r) => {
                assert(t.drop_last() =~= s.subrange(0, r.len() as int));
            },
            PairScan::BadName(r) => {
                assert(t.drop_last() =~= s.subrange(0, r.len() as int));
            },
            PairScan::Underflow => {},
        }
    }
    lemma_single_result_of(s, t);
    let u = build_enum_tuple_step(s, count as int);
    if n < count + 2 {
        assert(u.drop_last() =~= s.subrange(0, n));
    } else if !(s[n - 1] is Str) {
        assert(u.drop_last() =~= s.subrange(0, n - 1));
    } else if !(s[n - 2] is Str) {
        assert(u.drop_last() =~= s.subrange(0, n - 2));
    } else {
        assert(u.drop_last() =~= s.subrange(0, n - 2 - count));
    }
    lemma_single_result_of(s, u);
}

/// The instructions with one operand push one value over a prefix of the
/// stack.
proof fn lemma_one_operand_single_result(
    s: Seq<Value>,
    count: u8,
    consts: Seq<Value>,
    i1: u16,
    i2: u16,
)
    ensures
        pushes_one_over_prefix(s, match_enum_step(s, consts, i1 as int, i2 as int)),
        pushes_one_over_prefix(s, destructure_enum_tuple_step(s, count as int)),
        pushes_one_over_prefix(s, destructure_enum_struct_step(s, consts, i1 as int)),
{
    let n = s.len() as int;
    let k = if n == 0 {
        0
    } else {
        n - 1
    };
    let a = match_enum_step(s, consts, i1 as int, i2 as int);
    let b = destructure_enum_tuple_step(s, count as int);
    let c = destructure_enum_struct_step(s, consts, i1 as int);
    assert(a.drop_last() =~= s.subrange(0, k));
    assert(b.drop_last() =~= s.subrange(0, k));
    assert(c.drop_last() =~= s.subrange(0, k));
    lemma_single_result_of(s, a);
    lemma_single_result_of(s, b);
    lemma_single_result_of(s, c);
}

/// Pushing one value on a prefix of a stack.
pub proof fn lemma_push_over_prefix(s: Seq<Value>, k: int, x: Value)
    requires
        0 <= k <= s.len(),
    ensures
        pushes_one_over_prefix(s, s.subrange(0, k).push(x)),
{
    assert(s.subrange(0, k).push(x).drop_last() =~= s.subrange(0, k));
}

/// `GetField` and `SetField` push one value over a prefix of the stack.
proof fn lemma_get_set_single_result(s: Seq<Value>)
    ensures
        pushes_one_over_prefix(s, get_field_step(s)),
        pushes_one_over_prefix(s, set_field_step(s)),
{
    let n = s.len() as int;
    let g = get_field_step(s);
    let t = set_field_step(s);
    assert(s.subrange(0, n) =~= s);
    assert(s.drop_last() =~= s.subrange(0, n - 1));
    assert(Seq::<Value>::empty() =~= s.subrange(0, 0));
    lemma_push_over_prefix(s, g.len() - 1, g.last());
    lemma_push_over_prefix(s, t.len() - 1, t.last());
    assert(g =~= s.subrange(0, g.len() - 1).push(g.last()));
    assert(t =~= s.subrange(0, t.len() - 1).push(t.last()));
}

/// The stack that a pair scan leaves is a prefix of the scanned stack.
pub proof fn lemma_scan_prefix(t: Seq<Value>, count: nat)
    ensures
        match scan_pairs(t, count) {
            PairScan::Fields(_, r) => r.len() <= t.len() && r == t.subrange(0, r.len() as int),
            PairScan::BadName(r) => r.len() <= t.len() && r == t.subrange(0, r.len() as int),
            PairScan::Underflow => true,
        },
    decreases count,
{
    assert(t.subrange(0, t.len() as int) =~= t);
    if count > 0 && t.len() >= 2 {
        let p = t.subrange(0, t.len() - 2);
        lemma_scan_prefix(p, (count - 1) as nat);
        match scan_pairs(p, (count - 1) as nat) {
            PairScan::Fields(_, r) => {
                assert(p.subrange(0, r.len() as int) =~= t.subrange(0, r.len() as int));
            },
            PairScan::BadName(r) => {
                assert(p.subrange(0, r.len() as int) =~= t.subrange(0, r.len() as int));
            },
            PairScan::Underflow => {},
        }
    }
}

/// Reading a field just written gives the written value.
pub proof fn law_get_after_set(rest: Seq<Value>, target: Value, name: Seq<char>, v: Value)
    requires
        target is Struct,
    ensures
        get_field_step(
            set_field_step(rest.push(target).push(Value::Str(name)).push(v)).push(Value::Str(name)),
        ) == rest.push(v),
{
    let s = rest.push(target).push(Value::Str(name)).push(v);
    assert(s.subrange(0, s.len() - 3) =~= rest);
    let t = set_field_step(s);
    let u = t.push(Value::Str(name));
    assert(u.subrange(0, u.len() - 2) =~= rest);
}

/// Writing one field leaves every other field as it was.
pub proof fn law_set_keeps_other_fields(
    rest: Seq<Value>,
    target: Value,
    name: Seq<char>,
    other: Seq<char>,
    v: Value,
)
    requires
        target is Struct,
        name != other,
    ensures
        get_field_step(
            set_field_step(rest.push(target).push(Value::Str(name)).push(v)).push(Value::Str(other)),
        ) == get_field_step(rest.push(target).push(Value::Str(other))),
{
    let s = rest.push(target).push(Value::Str(name)).push(v);
    assert(s.subrange(0, s.len() - 3) =~= rest);
    let t = set_field_step(s);
    let u = t.push(Value::Str(other));
    assert(u.subrange(0, u.len() - 2) =~= rest);
    let w = rest.push(target).push(Value::Str(other));
    assert(w.subrange(0, w.len() - 2) =~= rest);
}

/// The stack `rest` with the arguments `args`, an enum name and a variant
/// name pushed on it: the operands of `BuildEnumTuple`.
pub open spec fn enum_tuple_operands(
    rest: Seq<Value>,
    args: Seq<Value>,
    enum_name: Seq<char>,
    variant: Seq<char>,
) -> Seq<Value> {
    (rest + args).push(Value::Str(enum_name)).push(Value::Str(variant))
}

/// Building an enum tuple value gives the enum value with the arguments as
/// payload, on the stack below the operands.
pub proof fn lemma_build_enum_tuple(
    rest: Seq<Value>,
    args: Seq<Value>,
    enum_name: Seq<char>,
    variant: Seq<char>,
)
    ensures
        build_enum_tuple_step(enum_tuple_operands(rest, args, enum_name, variant), args.len() as int)
            == rest.push(
            Value::Enum { enum_name, variant_name: variant, payload: PayloadValue::Tuple(args) },
        ),
{
    let s = enum_tuple_operands(rest, args, enum_name, variant);
    let n = s.len() as int;
    let c = args.len() as int;
    assert(s.subrange(0, n - 2 - c) =~= rest);
    assert(s.subrange(n - 2 - c, n - 2) =~= args);
}

/// Destructuring element `i` of a freshly built enum tuple gives argument `i`
/// (`Null` past the last argument).
pub proof fn law_destructure_after_build_tuple(
    rest: Seq<Value>,
    args: Seq<Value>,
    enum_name: Seq<char>,
    variant: Seq<char>,
    i: int,
)
    requires
        0 <= i,
    ensures
        destructure_enum_tuple_step(
            build_enum_tuple_step(
                enum_tuple_operands(rest, args, enum_name, variant),
                args.len() as int,
            ),
            i,
        ) == rest.push(
            if i < args.len() {
                args[i]
            } else {
                Value::Null
            },
        ),
{
    lemma_build_enum_tuple(rest, args, enum_name, variant);
    let b = rest.push(
        Value::Enum { enum_name, variant_name: variant, payload: PayloadValue::Tuple(args) },
    );
    assert(b.drop_last() =~= rest);
}

/// A freshly built enum tuple value matches its own enum and variant, and
/// matches its variant when any enum is accepted.
pub proof fn law_match_after_build_tuple(
    rest: Seq<Value>,
    args: Seq<Value>,
    enum_name: Seq<char>,
    variant: Seq<char>,
    consts: Seq<Value>,
    enum_idx: int,
    variant_idx: int,
)
    requires
        0 <= variant_idx < consts.len(),
        consts[variant_idx] == Value::Str(variant),
        enum_idx == any_enum_index() || (0 <= enum_idx < consts.len() && consts[enum_idx]
            == Value::Str(enum_name)),
    ensures
        match_enum_step(
            build_enum_tuple_step(
                enum_tuple_operands(rest, args, enum_name, variant),
                args.len() as int,
            ),
            consts,
            enum_idx,
            variant_idx,
        ) == rest.push(Value::Boolean(true)),
{
    lemma_build_enum_tuple(rest, args, enum_name, variant);
    let b = rest.push(
        Value::Enum { enum_name, variant_name: variant, payload: PayloadValue::Tuple(args) },
    );
    assert(b.drop_last() =~= rest);
}

/// A value matches no variant name but its own.
pub proof fn law_match_other_variant(
    rest: Seq<Value>,
    args: Seq<Value>,
    enum_name: Seq<char>,
    variant: Seq<char>,
    consts: Seq<Value>,
    variant_idx: int,
)
    requires
        0 <= variant_idx < consts.len(),
        consts[variant_idx] is Str,
        consts[variant_idx] != Value::Str(variant),
    ensures
        match_enum_step(
            build_enum_tuple_step(
                enum_tuple_operands(rest, args, enum_name, variant),
                args.len() as int,
            ),
            consts,
            any_enum_index(),
            variant_idx,
        ) == rest.push(Value::Boolean(false)),
{
    lemma_build_enum_tuple(rest, args, enum_name, variant);
    let b = rest.push(
        Value::Enum { enum_name, variant_name: variant, payload: PayloadValue::Tuple(args) },
    );
    assert(b.drop_last() =~= rest);
}

/// Destructuring a field of a freshly built enum struct value gives the
/// field that the build collected (`Null` when it collected none by that name).
pub proof fn law_destructure_after_build_enum_struct(
    s: Seq<Value>,
    count: u8,
    consts: Seq<Value>,
    name_idx: int,
)
    requires
        s.len() >= count * 2 + 2,
        s[s.len() - 1] is Str,
        s[s.len() - 2] is Str,
        scan_pairs(s.subrange(0, s.len() - 2), count as nat) is Fields,
        is_str_const(consts, name_idx),
    ensures
        match scan_pairs(s.subrange(0, s.len() - 2), count as nat) {
            PairScan::Fields(m, r) => destructure_enum_struct_step(
                build_enum_struct_step(s, count as int),
                consts,
                name_idx,
            ) == r.push(lookup_or_null(m, consts[name_idx]->Str_0)),
            _ => false,
        },
{
    match scan_pairs(s.subrange(0, s.len() - 2), count as nat) {
        PairScan::Fields(m, r) => {
            let b = build_enum_struct_step(s, count as int);
            assert(b.drop_last() =~= r);
        },
        _ => {},
    }
}

/// After `BuildStruct`, reading a field gives the value passed for it, else
/// the template's default, else `Null`.
pub proof fn law_get_after_build_struct(s: Seq<Value>, count: u8, name: Seq<char>)
    requires
        s.len() >= count + 2,
        s[s.len() - 1] is Struct,
        scan_pairs(s.drop_last(), count as nat) is Fields,
    ensures
        match scan_pairs(s.drop_last(), count as nat) {
            PairScan::Fields(m, r) => get_field_step(
                build_struct_step(s, count as int).push(Value::Str(name)),
            ) == r.push(
                if m.contains_key(name) {
                    m[name]
                } else if s[s.len() - 1]->fields.contains_key(name) {
                    s[s.len() - 1]->fields[name]
                } else {
                    Value::Null
                },
            ),
            _ => false,
        },
{
    match scan_pairs(s.drop_last(), count as nat) {
        PairScan::Fields(m, r) => {
            let b = build_struct_step(s, count as int).push(Value::Str(name));
            assert(b.subrange(0, b.len() - 2) =~= r);
        },
        _ => {},
    }
}


/// The stack `[name_0, value_0, .., name_k, value_k]` of (name, value)
/// operand pairs, the first pair deepest.
pub open spec fn field_pairs(names: Seq<Seq<char>>, values: Seq<Value>) -> Seq<Value>
    decreases names.len(),
{
    if names.len() == 0 || values.len() == 0 {
        Seq::empty()
    } else {
        field_pairs(names.drop_last(), values.drop_last()).push(Value::Str(names.last())).push(
            values.last(),
        )
    }
}

/// Whether no name occurs twice.
pub open spec fn distinct_names(names: Seq<Seq<char>>) -> bool {
    forall|i: int, j: int| 0 <= i < j < names.len() ==> names[i] != names[j]
}

/// Popping pairs with distinct names collects each name with its value,
/// and nothing else, leaving the stack below the pairs.
pub proof fn lemma_scan_field_pairs(rest: Seq<Value>, names: Seq<Seq<char>>, values: Seq<Value>)
    requires
        names.len() == values.len(),
        distinct_names(names),
    ensures
        match scan_pairs(rest + field_pairs(names, values), names.len() as nat) {
            PairScan::Fields(m, r) => {
                &&& r == rest
                &&& forall|j: int|
                    0 <= j < names.len() ==> #[trigger] m.contains_key(names[j]) && m[names[j]]
                        == values[j]
                &&& forall|g: Seq<char>| #[trigger] m.contains_key(g) ==> names.contains(g)
            },
            _ => false,
        },
    decreases names.len(),
{
    let k = names.len();
    let t = rest + field_pairs(names, values);
    if k == 0 {
        assert(t =~= rest);
    } else {
        let ns = names.drop_last();
        let vs = values.drop_last();
        let n = t.len() as int;
        let inner = rest + field_pairs(ns, vs);
        assert(t =~= inner.push(Value::Str(names.last())).push(values.last()));
        assert(t.subrange(0, n - 2) =~= inner);
        assert(distinct_names(ns)) by {
            assert forall|i: int, j: int| 0 <= i < j < ns.len() implies ns[i] != ns[j] by {
                assert(ns[i] == names[i] && ns[j] == names[j]);
            }
        }
        lemma_scan_field_pairs(rest, ns, vs);
        match scan_pairs(inner, (k - 1) as nat) {
            PairScan::Fields(m1, r1) => {
                let first = Map::<Seq<char>, Value>::empty().insert(names.last(), values.last());
                let m = first.union_prefer_right(m1);
                assert(!m1.contains_key(names.last())) by {
                    if m1.contains_key(names.last()) {
                        let i = choose|i: int| 0 <= i < ns.len() && ns[i] == names.last();
                        assert(names[i] == names[k - 1]);
                    }
                }
                assert forall|j: int| 0 <= j < names.len() implies #[trigger] m.contains_key(
                    names[j],
                ) && m[names[j]] == values[j] by {
                    if j < k - 1 {
                        assert(ns[j] == names[j] && vs[j] == values[j]);
                        assert(m1.contains_key(ns[j]));
                    }
                }
                assert forall|g: Seq<char>| #[trigger] m.contains_key(g) implies names.contains(g) by {
                    if g == names.last() {
                        assert(names[k - 1] == g);
                    } else {
                        assert(m1.contains_key(g));
                        let i = choose|i: int| 0 <= i < ns.len() && ns[i] == g;
                        assert(names[i] == g);
                    }
                }
            },
            _ => {},
        }
    }
}

/// After `BuildEnumStruct` on pairs with distinct names, destructuring the
/// field named by a constant gives the value passed under that name, and
/// `Null` when no pair had that name.
pub proof fn law_destructure_after_build_enum_struct_fields(
    rest: Seq<Value>,
    names: Seq<Seq<char>>,
    values: Seq<Value>,
    enum_name: Seq<char>,
    variant: Seq<char>,
    consts: Seq<Value>,
    name_idx: int,
)
    requires
        names.len() == values.len(),
        distinct_names(names),
        is_str_const(consts, name_idx),
    ensures
        forall|j: int|
            0 <= j < names.len() && names[j] == consts[name_idx]->Str_0 ==> destructure_enum_struct_step(
                build_enum_struct_step(
                    (rest + field_pairs(names, values)).push(Value::Str(enum_name)).push(
                        Value::Str(variant),
                    ),
                    names.len() as int,
                ),
                consts,
                name_idx,
            ) == rest.push(values[j]),
        !names.contains(consts[name_idx]->Str_0) ==> destructure_enum_struct_step(
            build_enum_struct_step(
                (rest + field_pairs(names, values)).push(Value::Str(enum_name)).push(
                    Value::Str(variant),
                ),
                names.len() as int,
            ),
            consts,
            name_idx,
        ) == rest.push(Value::Null),
{
    let k = names.len() as int;
    let body = rest + field_pairs(names, values);
    let s = body.push(Value::Str(enum_name)).push(Value::Str(variant));
    let n = s.len() as int;
    lemma_field_pairs_len(names, values);
    assert(s.subrange(0, n - 2) =~= body);
    lemma_scan_field_pairs(rest, names, values);
    let g = consts[name_idx]->Str_0;
    match scan_pairs(body, k as nat) {
        PairScan::Fields(m, r) => {
            let b = build_enum_struct_step(s, k);
            assert(b == r.push(
                Value::Enum {
                    enum_name,
                    variant_name: variant,
                    payload: PayloadValue::Struct(m),
                },
            ));
            assert(b.drop_last() =~= rest);
            if !names.contains(g) {
                assert(!m.contains_key(g));
            }
        },
        _ => {},
    }
}

/// The operand pairs take two stack slots each.
pub proof fn lemma_field_pairs_len(names: Seq<Seq<char>>, values: Seq<Value>)
    requires
        names.len() == values.len(),
    ensures
        field_pairs(names, values).len() == 2 * names.len(),
    decreases names.len(),
{
    if names.len() > 0 {
        lemma_field_pairs_len(names.drop_last(), values.drop_last());
    }
}


/// `SetField` on a struct changes only the named field: the struct keeps its
/// name and its methods, and the stack below the operands is untouched.
pub proof fn law_set_field_on_struct(
    rest: Seq<Value>,
    sname: Seq<char>,
    fields: Map<Seq<char>, Value>,
    methods: Map<Seq<char>, Value>,
    key: Seq<char>,
    v: Value,
)
    ensures
        set_field_step(
            rest.push(Value::Struct { name: sname, fields, methods }).push(Value::Str(key)).push(v),
        ) == rest.push(Value::Struct { name: sname, fields: fields.insert(key, v), methods }),
{
    let s = rest.push(Value::Struct { name: sname, fields, methods }).push(Value::Str(key)).push(v);
    assert(s.subrange(0, s.len() - 3) =~= rest);
}

/// A method of a struct can still be called after a field of it was set:
/// the call finds the same method and passes the updated struct first,
/// followed by the arguments in stack order.
pub proof fn law_method_call_after_set_field(
    rest: Seq<Value>,
    sname: Seq<char>,
    fields: Map<Seq<char>, Value>,
    methods: Map<Seq<char>, Value>,
    key: Seq<char>,
    v: Value,
    method: Seq<char>,
    args: Seq<Value>,
)
    requires
        methods.contains_key(method),
    ensures
        call_method_outcome(
            set_field_step(
                rest.push(Value::Struct { name: sname, fields, methods }).push(Value::Str(key)).push(
                    v,
                ),
            ).push(Value::Str(method)) + args,
            args.len() as int,
        ) == CallOutcome::Call(
            rest.push(methods[method]).push(
                Value::Struct { name: sname, fields: fields.insert(key, v), methods },
            ) + args,
            (args.len() + 1) as nat,
        ),
{
    law_set_field_on_struct(rest, sname, fields, methods, key, v);
    let updated = Value::Struct { name: sname, fields: fields.insert(key, v), methods };
    law_call_method_on_struct(rest, updated, method, args);
}

/// `CallMethod` on a struct that has the method: the new stack holds the
/// method, the struct itself as first argument, then the arguments that
/// stood above the method name, in the same order; the count includes the
/// struct.
pub proof fn law_call_method_on_struct(
    rest: Seq<Value>,
    receiver: Value,
    method: Seq<char>,
    args: Seq<Value>,
)
    requires
        receiver is Struct,
        receiver->methods.contains_key(method),
    ensures
        call_method_outcome(
            rest.push(receiver).push(Value::Str(method)) + args,
            args.len() as int,
        ) == CallOutcome::Call(
            rest.push(receiver->methods[method]).push(receiver) + args,
            (args.len() + 1) as nat,
        ),
{
    let s = rest.push(receiver).push(Value::Str(method)) + args;
    let n = s.len() as int;
    let a = args.len() as int;
    assert(s[n - a - 1] == Value::Str(method));
    assert(s[n - a - 2] == receiver);
    assert(s.subrange(n - a, n) =~= args);
    assert(s.subrange(0, n - a - 2) =~= rest);
}

/// `CallMethod` on a module that exports the name: the new stack holds the
/// export, then the arguments that stood above the method name, in the same
/// order; the count is the number of arguments.
pub proof fn law_call_method_on_module(
    rest: Seq<Value>,
    mname: Seq<char>,
    exports: Map<Seq<char>, Value>,
    method: Seq<char>,
    args: Seq<Value>,
)
    requires
        exports.contains_key(method),
    ensures
        call_method_outcome(
            rest.push(Value::Module { name: mname, exports }).push(Value::Str(method)) + args,
            args.len() as int,
        ) == CallOutcome::Call(rest.push(exports[method]) + args, args.len() as nat),
{
    let s = rest.push(Value::Module { name: mname, exports }).push(Value::Str(method)) + args;
    let n = s.len() as int;
    let a = args.len() as int;
    assert(s[n - a - 1] == Value::Str(method));
    assert(s[n - a - 2] == Value::Module { name: mname, exports });
    assert(s.subrange(n - a, n) =~= args);
    assert(s.subrange(0, n - a - 2) =~= rest);
}

/// What `MatchEnum` pushes, when its constants are valid: true exactly when
/// the value is an enum value whose variant is the variant constant and,
/// when an enum constant is given, whose enum is that constant.
pub proof fn law_match_enum_result(
    rest: Seq<Value>,
    value: Value,
    consts: Seq<Value>,
    enum_idx: int,
    variant_idx: int,
)
    requires
        is_str_const(consts, variant_idx),
        enum_idx == any_enum_index() || is_str_const(consts, enum_idx),
    ensures
        match_enum_step(rest.push(value), consts, enum_idx, variant_idx) == rest.push(
            Value::Boolean(
                match value {
                    Value::Enum { enum_name, variant_name, .. } => variant_name
                        == consts[variant_idx]->Str_0 && (enum_idx == any_enum_index()
                        || enum_name == consts[enum_idx]->Str_0),
                    _ => false,
                },
            ),
        ),
{
    assert(rest.push(value).drop_last() =~= rest);
}

/// An enum value matches no variant constant but its own name, whichever
/// enum constant is given.
pub proof fn law_match_enum_other_variant(
    rest: Seq<Value>,
    enum_name: Seq<char>,
    variant: Seq<char>,
    payload: PayloadValue,
    consts: Seq<Value>,
    enum_idx: int,
    variant_idx: int,
)
    requires
        is_str_const(consts, variant_idx),
        consts[variant_idx] != Value::Str(variant),
        enum_idx == any_enum_index() || is_str_const(consts, enum_idx),
    ensures
        match_enum_step(
            rest.push(Value::Enum { enum_name, variant_name: variant, payload }),
            consts,
            enum_idx,
            variant_idx,
        ) == rest.push(Value::Boolean(false)),
{
    law_match_enum_result(
        rest,
        Value::Enum { enum_name, variant_name: variant, payload },
        consts,
        enum_idx,
        variant_idx,
    );
}

/// `BuildEnumStruct` on pairs with distinct names below an enum name `e` and
/// a variant name `v` gives one enum value of enum `e` and variant `v` whose
/// fields are exactly the pairs, on the stack below the operands.
pub proof fn law_build_enum_struct_result(
    rest: Seq<Value>,
    names: Seq<Seq<char>>,
    values: Seq<Value>,
    e: Seq<char>,
    v: Seq<char>,
)
    requires
        names.len() == values.len(),
        distinct_names(names),
    ensures
        ({
            let b = build_enum_struct_step(
                (rest + field_pairs(names, values)).push(Value::Str(e)).push(Value::Str(v)),
                names.len() as int,
            );
            &&& b.len() == rest.len() + 1
            &&& b.drop_last() == rest
            &&& b.last() is Enum
            &&& b.last()->enum_name == e
            &&& b.last()->variant_name == v
            &&& b.last()->payload is Struct
            &&& forall|j: int|
                0 <= j < names.len() ==> #[trigger] b.last()->payload->Struct_0.contains_key(
                    names[j],
                ) && b.last()->payload->Struct_0[names[j]] == values[j]
            &&& forall|g: Seq<char>|
                #[trigger] b.last()->payload->Struct_0.contains_key(g) ==> names.contains(g)
        }),
{
    let k = names.len() as int;
    let body = rest + field_pairs(names, values);
    let s = body.push(Value::Str(e)).push(Value::Str(v));
    let n = s.len() as int;
    lemma_field_pairs_len(names, values);
    assert(s.subrange(0, n - 2) =~= body);
    lemma_scan_field_pairs(rest, names, values);
    let b = build_enum_struct_step(s, k);
    match scan_pairs(body, k as nat) {
        PairScan::Fields(m, r) => {
            assert(b == r.push(
                Value::Enum { enum_name: e, variant_name: v, payload: PayloadValue::Struct(m) },
            ));
            assert(b.drop_last() =~= rest);
        },
        _ => {},
    }
}

/// A freshly built enum struct value matches its own enum and variant.
pub proof fn law_match_after_build_enum_struct(
    rest: Seq<Value>,
    names: Seq<Seq<char>>,
    values: Seq<Value>,
    e: Seq<char>,
    v: Seq<char>,
    consts: Seq<Value>,
    enum_idx: int,
    variant_idx: int,
)
    requires
        names.len() == values.len(),
        distinct_names(names),
        0 <= variant_idx < consts.len(),
        consts[variant_idx] == Value::Str(v),
        enum_idx == any_enum_index() || (0 <= enum_idx < consts.len() && consts[enum_idx]
            == Value::Str(e)),
    ensures
        match_enum_step(
            build_enum_struct_step(
                (rest + field_pairs(names, values)).push(Value::Str(e)).push(Value::Str(v)),
                names.len() as int,
            ),
            consts,
            enum_idx,
            variant_idx,
        ) == rest.push(Value::Boolean(true)),
{
    law_build_enum_struct_result(rest, names, values, e, v);
    let b = build_enum_struct_step(
        (rest + field_pairs(names, values)).push(Value::Str(e)).push(Value::Str(v)),
        names.len() as int,
    );
    assert(b =~= rest.push(b.last()));
    law_match_enum_result(rest, b.last(), consts, enum_idx, variant_idx);
}

} // verus!
