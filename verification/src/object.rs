//! Runtime values of the virtual machine and their mathematical model.
//!
//! Every executable `Object` has a view of type `Value`: strings are viewed as
//! `Seq<char>`, field tables as `Map<Seq<char>, Value>`, tuple payloads as
//! `Seq<Value>`.  All contracts of the machine's operations are stated over
//! these views.
use vstd::prelude::*;

verus! {

/// The error raised by a failing machine operation.
#[derive(Debug)]
pub enum RuntimeError {
    InvalidOperation(String),
}

/// Model of a `RuntimeError`.
pub enum ErrorValue {
    InvalidOperation(Seq<char>),
}

impl View for RuntimeError {
    type V = ErrorValue;

    open spec fn view(&self) -> ErrorValue {
        match self {
            RuntimeError::InvalidOperation(msg) => ErrorValue::InvalidOperation(msg@),
        }
    }
}

/// A callable value (a compiled function or method).
#[derive(Debug)]
pub struct FunctionObject {
    pub name: String,
    pub arity: usize,
}

/// An instance of a user-defined struct type.
#[derive(Debug)]
pub struct StructObject {
    pub name: String,
    pub fields: FieldMap,
    pub methods: FieldMap,
}

/// A loaded module with its exported values.
#[derive(Debug)]
pub struct ModuleObject {
    pub name: String,
    pub exports: FieldMap,
}

/// The data carried by an enum variant.
#[derive(Debug)]
pub enum EnumPayload {
    Unit,
    Tuple(Vec<Object>),
    Struct(FieldMap),
}

/// A value of a user-defined enum type.
#[derive(Debug)]
pub struct EnumObject {
    pub enum_name: String,
    pub variant_name: String,
    pub payload: EnumPayload,
}

/// A value on the machine's stack.
#[derive(Debug)]
pub enum Object {
    Null,
    Boolean(bool),
    Integer(i64),
    String(String),
    Function(Box<FunctionObject>),
    Struct(Box<StructObject>),
    Module(Box<ModuleObject>),
    Enum(Box<EnumObject>),
    Error(Box<RuntimeError>),
}

/// A table from names to values: an association list in which a later entry
/// for a name hides every earlier entry for the same name.
#[derive(Debug)]
pub struct FieldMap {
    entries: Vec<(String, Object)>,
}

/// Model of an `Object`.
pub enum Value {
    Null,
    Boolean(bool),
    Integer(i64),
    Str(Seq<char>),
    Function { name: Seq<char>, arity: usize },
    Struct { name: Seq<char>, fields: Map<Seq<char>, Value>, methods: Map<Seq<char>, Value> },
    Module { name: Seq<char>, exports: Map<Seq<char>, Value> },
    Enum { enum_name: Seq<char>, variant_name: Seq<char>, payload: PayloadValue },
    Error(ErrorValue),
}

/// Model of an `EnumPayload`.
pub enum PayloadValue {
    Unit,
    Tuple(Seq<Value>),
    Struct(Map<Seq<char>, Value>),
}

/// The model of an object.
pub open spec fn object_value(o: Object) -> Value
    decreases o,
{
    match o {
        Object::Null => Value::Null,
        Object::Boolean(b) => Value::Boolean(b),
        Object::Integer(i) => Value::Integer(i),
        Object::String(s) => Value::Str(s@),
        Object::Function(f) => Value::Function { name: f.name@, arity: f.arity },
        Object::Struct(s) => Value::Struct {
            name: s.name@,
            fields: s.fields.contents(),
            methods: s.methods.contents(),
        },
        Object::Module(m) => Value::Module { name: m.name@, exports: m.exports.contents() },
        Object::Enum(e) => Value::Enum {
            enum_name: e.enum_name@,
            variant_name: e.variant_name@,
            payload: payload_value(e.payload),
        },
        Object::Error(e) => Value::Error(e@),
    }
}

/// The model of an enum payload.
pub open spec fn payload_value(p: EnumPayload) -> PayloadValue
    decreases p,
{
    match p {
        EnumPayload::Unit => PayloadValue::Unit,
        EnumPayload::Tuple(args) => PayloadValue::Tuple(objects_value(args@)),
        EnumPayload::Struct(fields) => PayloadValue::Struct(fields.contents()),
    }
}

/// The models of a sequence of objects, in order.
pub open spec fn objects_value(s: Seq<Object>) -> Seq<Value>
    decreases s,
{
    if s.len() == 0 {
        Seq::empty()
    } else {
        objects_value(s.subrange(0, s.len() - 1)).push(object_value(s[s.len() - 1]))
    }
}

/// The table described by an association list: later entries win.
pub open spec fn entries_value(s: Seq<(String, Object)>) -> Map<Seq<char>, Value>
    decreases s,
{
    if s.len() == 0 {
        Map::empty()
    } else {
        entries_value(s.subrange(0, s.len() - 1)).insert(
            s[s.len() - 1].0@,
            object_value(s[s.len() - 1].1),
        )
    }
}

impl FieldMap {
    /// The table that this map stands for.
    pub closed spec fn contents(self) -> Map<Seq<char>, Value>
        decreases self,
    {
        entries_value(self.entries@)
    }
}

/// The name under which a value's type is reported in error messages.
pub open spec fn kind_name_of(v: Value) -> Seq<char> {
    match v {
        Value::Null => "Null"@,
        Value::Boolean(_) => "Bool"@,
        Value::Integer(_) => "Int"@,
        Value::Str(_) => "String"@,
        Value::Function { .. } => "Function"@,
        Value::Struct { .. } => "Struct"@,
        Value::Module { .. } => "Module"@,
        Value::Enum { .. } => "Enum"@,
        Value::Error(_) => "Error"@,
    }
}

/// The model of an `InvalidOperation` error object carrying `msg`.
pub open spec fn invalid_value(msg: Seq<char>) -> Value {
    Value::Error(ErrorValue::InvalidOperation(msg))
}

/// The model of a field lookup that yields `Null` for a missing name.
pub open spec fn lookup_or_null(m: Map<Seq<char>, Value>, name: Seq<char>) -> Value {
    if m.contains_key(name) {
        m[name]
    } else {
        Value::Null
    }
}


/// Pushing an entry onto an association list inserts it into the table.
pub proof fn lemma_entries_push(s: Seq<(String, Object)>, e: (String, Object))
    ensures
        entries_value(s.push(e)) == entries_value(s).insert(e.0@, object_value(e.1)),
{
    assert(s.push(e).subrange(0, s.len() as int) =~= s);
}

/// The entry that decides a name is the last one that carries it.
pub proof fn lemma_entries_last(s: Seq<(String, Object)>, k: Seq<char>, j: int)
    requires
        0 <= j < s.len(),
        s[j].0@ == k,
        forall|i: int| j < i < s.len() ==> #[trigger] s[i].0@ != k,
    ensures
        entries_value(s).contains_key(k),
        entries_value(s)[k] == object_value(s[j].1),
    decreases s.len(),
{
    if j < s.len() - 1 {
        let p = s.subrange(0, s.len() - 1);
        assert(s[s.len() - 1].0@ != k);
        assert forall|i: int| j < i < p.len() implies #[trigger] p[i].0@ != k by {
            assert(p[i] == s[i]);
        }
        lemma_entries_last(p, k, j);
    }
}

/// A name that no entry carries is absent from the table.
pub proof fn lemma_entries_absent(s: Seq<(String, Object)>, k: Seq<char>)
    requires
        forall|i: int| 0 <= i < s.len() ==> #[trigger] s[i].0@ != k,
    ensures
        !entries_value(s).contains_key(k),
    decreases s.len(),
{
    if s.len() > 0 {
        let p = s.subrange(0, s.len() - 1);
        assert(s[s.len() - 1].0@ != k);
        assert forall|i: int| 0 <= i < p.len() implies #[trigger] p[i].0@ != k by {
            assert(p[i] == s[i]);
        }
        lemma_entries_absent(p, k);
    }
}

/// Overwriting the deciding entry of a name inserts the new value.
pub proof fn lemma_entries_update(s: Seq<(String, Object)>, j: int, e: (String, Object))
    requires
        0 <= j < s.len(),
        s[j].0@ == e.0@,
        forall|i: int| j < i < s.len() ==> #[trigger] s[i].0@ != e.0@,
    ensures
        entries_value(s.update(j, e)) == entries_value(s).insert(e.0@, object_value(e.1)),
    decreases s.len(),
{
    let u = s.update(j, e);
    let p = s.subrange(0, s.len() - 1);
    let up = u.subrange(0, u.len() - 1);
    if j == s.len() - 1 {
        assert(up =~= p);
        assert(entries_value(u) =~= entries_value(s).insert(e.0@, object_value(e.1)));
    } else {
        assert(up =~= p.update(j, e));
        assert forall|i: int| j < i < p.len() implies #[trigger] p[i].0@ != e.0@ by {
            assert(p[i] == s[i]);
        }
        lemma_entries_update(p, j, e);
        let last = s[s.len() - 1];
        assert(u[u.len() - 1] == last);
        assert(last.0@ != e.0@);
        assert(entries_value(u) =~= entries_value(s).insert(e.0@, object_value(e.1)));
    }
}

impl FieldMap {
    /// An empty table.
    pub fn new() -> (m: FieldMap)
        ensures
            m@ == Map::<Seq<char>, Value>::empty(),
    {
        FieldMap { entries: Vec::new() }
    }

    /// The position of the entry that decides `key`, if any.
    fn position(&self, key: &String) -> (r: Option<usize>)
        ensures
            match r {
                Some(j) => {
                    &&& j < self.entries@.len()
                    &&& self.entries@[j as int].0@ == key@
                    &&& forall|i: int|
                        j < i < self.entries@.len() ==> #[trigger] self.entries@[i].0@ != key@
                },
                None => forall|i: int|
                    0 <= i < self.entries@.len() ==> #[trigger] self.entries@[i].0@ != key@,
            },
    {
        let mut i = self.entries.len();
        while i > 0
            invariant
                i <= self.entries@.len(),
                forall|k: int| i <= k < self.entries@.len() ==> #[trigger] self.entries@[k].0@ != key@,
            decreases i,
        {
            i = i - 1;
            if self.entries[i].0 == *key {
                return Some(i);
            }
        }
        None
    }

    /// Whether the table holds `key`.
    pub fn contains_key(&self, key: &String) -> (b: bool)
        ensures
            b == self@.contains_key(key@),
    {
        match self.position(key) {
            Some(j) => {
                proof {
                    lemma_entries_last(self.entries@, key@, j as int);
                }
                true
            },
            None => {
                proof {
                    lemma_entries_absent(self.entries@, key@);
                }
                false
            },
        }
    }

    /// The value stored under `key`, if any.
    pub fn get(&self, key: &String) -> (r: Option<&Object>)
        ensures
            match r {
                Some(o) => self@.contains_key(key@) && o@ == self@[key@],
                None => !self@.contains_key(key@),
            },
    {
        match self.position(key) {
            Some(j) => {
                proof {
                    lemma_entries_last(self.entries@, key@, j as int);
                }
                Some(&self.entries[j].1)
            },
            None => {
                proof {
                    lemma_entries_absent(self.entries@, key@);
                }
                None
            },
        }
    }

    /// Stores `value` under `key`, replacing any earlier value.
    pub fn insert(&mut self, key: String, value: Object)
        ensures
            final(self)@ == old(self)@.insert(key@, value@),
    {
        match self.position(&key) {
            Some(j) => {
                proof {
                    lemma_entries_update(self.entries@, j as int, (key, value));
                }
                self.entries.set(j, (key, value));
            },
            None => {
                proof {
                    lemma_entries_push(self.entries@, (key, value));
                }
                self.entries.push((key, value));
            },
        }
    }

    /// Consumes the table and hands out the value stored under `key`, if any.
    pub fn take(self, key: &String) -> (r: Option<Object>)
        ensures
            match r {
                Some(o) => self@.contains_key(key@) && o@ == self@[key@],
                None => !self@.contains_key(key@),
            },
    {
        match self.position(key) {
            Some(j) => {
                proof {
                    lemma_entries_last(self.entries@, key@, j as int);
                }
                let mut entries = self.entries;
                let (_, v) = entries.swap_remove(j);
                Some(v)
            },
            None => {
                proof {
                    lemma_entries_absent(self.entries@, key@);
                }
                None
            },
        }
    }

    /// Adds every entry of `defaults` whose name this table lacks.
    pub fn fill_missing(&mut self, defaults: FieldMap)
        ensures
            final(self)@ == defaults@.union_prefer_right(old(self)@),
    {
        let mut rest = defaults.entries;
        while rest.len() > 0
            invariant
                entries_value(rest@).union_prefer_right(self@) == defaults@.union_prefer_right(
                    old(self)@,
                ),
            decreases rest.len(),
        {
            let ghost before = rest@;
            let (k, v) = rest.pop().unwrap();
            proof {
                assert(before == rest@.push((k, v)));
                lemma_entries_push(rest@, (k, v));
            }
            let present = self.contains_key(&k);
            if present {
                assert(entries_value(rest@).union_prefer_right(self@) =~= entries_value(
                    before,
                ).union_prefer_right(self@));
            } else {
                let ghost prev = self@;
                self.insert(k, v);
                assert(entries_value(rest@).union_prefer_right(self@) =~= entries_value(
                    before,
                ).union_prefer_right(prev));
            }
        }
        assert(entries_value(rest@) =~= Map::<Seq<char>, Value>::empty());
        assert(self@ =~= entries_value(rest@).union_prefer_right(self@));
    }
}


impl RuntimeError {
    /// A copy of this error with the same model.
    pub fn deep_clone(&self) -> (r: RuntimeError)
        ensures
            r@ == self@,
    {
        match self {
            RuntimeError::InvalidOperation(msg) => RuntimeError::InvalidOperation(msg.clone()),
        }
    }
}

impl Object {
    /// An `InvalidOperation` error object carrying `msg`.
    pub fn invalid(msg: String) -> (o: Object)
        ensures
            o@ == invalid_value(msg@),
    {
        Object::Error(Box::new(RuntimeError::InvalidOperation(msg)))
    }

    /// The name of this value's type, as error messages report it.
    pub fn kind_name(&self) -> (r: &'static str)
        ensures
            r@ == kind_name_of(self@),
    {
        match self {
            Object::Null => "Null",
            Object::Boolean(_) => "Bool",
            Object::Integer(_) => "Int",
            Object::String(_) => "String",
            Object::Function(_) => "Function",
            Object::Struct(_) => "Struct",
            Object::Module(_) => "Module",
            Object::Enum(_) => "Enum",
            Object::Error(_) => "Error",
        }
    }

    /// A copy of this object with the same model.
    pub fn deep_clone(&self) -> (r: Object)
        ensures
            r@ == self@,
        decreases self,
    {
        match self {
            Object::Null => Object::Null,
            Object::Boolean(b) => Object::Boolean(*b),
            Object::Integer(i) => Object::Integer(*i),
            Object::String(s) => Object::String(s.clone()),
            Object::Function(f) => Object::Function(
                Box::new(FunctionObject { name: f.name.clone(), arity: f.arity }),
            ),
            Object::Struct(s) => Object::Struct(
                Box::new(
                    StructObject {
                        name: s.name.clone(),
                        fields: s.fields.deep_clone(),
                        methods: s.methods.deep_clone(),
                    },
                ),
            ),
            Object::Module(m) => Object::Module(
                Box::new(ModuleObject { name: m.name.clone(), exports: m.exports.deep_clone() }),
            ),
            Object::Enum(e) => Object::Enum(
                Box::new(
                    EnumObject {
                        enum_name: e.enum_name.clone(),
                        variant_name: e.variant_name.clone(),
                        payload: e.payload.deep_clone(),
                    },
                ),
            ),
            Object::Error(e) => Object::Error(Box::new(e.deep_clone())),
        }
    }
}

impl EnumPayload {
    /// A copy of this payload with the same model.
    pub fn deep_clone(&self) -> (r: EnumPayload)
        ensures
            payload_value(r) == payload_value(*self),
        decreases self,
    {
        match self {
            EnumPayload::Unit => EnumPayload::Unit,
            EnumPayload::Tuple(args) => {
                let mut out: Vec<Object> = Vec::new();
                let mut i: usize = 0;
                while i < args.len()
                    invariant
                        *self == EnumPayload::Tuple(*args),
                        i <= args@.len(),
                        objects_value(out@) == objects_value(args@.subrange(0, i as int)),
                    decreases args@.len() - i,
                {
                    proof {
                        assert(decreases_to!(*self => self->Tuple_0));
                        assert(decreases_to!(*args => args@));
                        assert(decreases_to!(args@ => args@[i as int]));
                    }
                    let c = args[i].deep_clone();
                    let ghost before = out@;
                    out.push(c);
                    proof {
                        assert(out@.subrange(0, before.len() as int) =~= before);
                        assert(args@.subrange(0, i + 1).subrange(0, i as int) =~= args@.subrange(
                            0,
                            i as int,
                        ));
                    }
                    i = i + 1;
                }
                assert(args@.subrange(0, args@.len() as int) =~= args@);
                EnumPayload::Tuple(out)
            },
            EnumPayload::Struct(fields) => EnumPayload::Struct(fields.deep_clone()),
        }
    }
}

impl FieldMap {
    /// A copy of this table with the same model.
    pub fn deep_clone(&self) -> (r: FieldMap)
        ensures
            r@ == self@,
        decreases self,
    {
        let mut out: Vec<(String, Object)> = Vec::new();
        let mut i: usize = 0;
        while i < self.entries.len()
            invariant
                i <= self.entries@.len(),
                entries_value(out@) == entries_value(self.entries@.subrange(0, i as int)),
            decreases self.entries@.len() - i,
        {
            proof {
                assert(decreases_to!(self => self.entries));
                assert(decreases_to!(self.entries => self.entries@));
                assert(decreases_to!(self.entries@ => self.entries@[i as int]));
            }
            let k = self.entries[i].0.clone();
            let v = self.entries[i].1.deep_clone();
            let ghost before = out@;
            out.push((k, v));
            proof {
                lemma_entries_push(before, (k, v));
                let p = self.entries@.subrange(0, i + 1);
                assert(p.subrange(0, i as int) =~= self.entries@.subrange(0, i as int));
            }
            i = i + 1;
        }
        assert(self.entries@.subrange(0, self.entries@.len() as int) =~= self.entries@);
        FieldMap { entries: out }
    }
}


/// The models of a sequence of objects (a stack, a constant pool).
pub open spec fn values_of(s: Seq<Object>) -> Seq<Value> {
    s.map_values(|o: Object| o@)
}

/// Taking a prefix of a sequence of objects takes the prefix of its models.
pub proof fn lemma_values_prefix(s: Seq<Object>, i: int)
    requires
        0 <= i <= s.len(),
    ensures
        values_of(s.subrange(0, i)) == values_of(s).subrange(0, i),
{
    assert(values_of(s.subrange(0, i)) =~= values_of(s).subrange(0, i));
}

/// Pushing an object pushes its model.
pub proof fn lemma_values_push(s: Seq<Object>, o: Object)
    ensures
        values_of(s.push(o)) == values_of(s).push(o@),
{
    assert(values_of(s.push(o)) =~= values_of(s).push(o@));
}


/// The recursive model of a sequence of objects is the element-wise model.
pub proof fn lemma_objects_value(s: Seq<Object>)
    ensures
        objects_value(s) == values_of(s),
    decreases s.len(),
{
    if s.len() > 0 {
        let p = s.subrange(0, s.len() - 1);
        lemma_objects_value(p);
        assert(values_of(s) =~= values_of(p).push(object_value(s[s.len() - 1])));
    } else {
        assert(values_of(s) =~= Seq::<Value>::empty());
    }
}

/// A machine's code unit: the constant pool that instructions index into.
#[derive(Debug)]
pub struct Chunk {
    pub constants: Vec<Object>,
}

impl View for Object {
    type V = Value;

    open spec fn view(&self) -> Value {
        object_value(*self)
    }
}

impl View for FieldMap {
    type V = Map<Seq<char>, Value>;

    open spec fn view(&self) -> Map<Seq<char>, Value> {
        self.contents()
    }
}

} // verus!
