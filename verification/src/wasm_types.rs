//! WebAssembly value types and their correspondence with the language's
//! own types.
use vstd::prelude::*;
use vstd::string::StringExecFns;

verus! {

/// A WebAssembly number type.
#[derive(Debug, Clone, Copy, PartialEq, Eq, Structural, Hash)]
pub enum WasmType {
    I32,
    I64,
    F32,
    F64,
}

/// The number type named by the text format keyword `s`, if any.
pub open spec fn wasm_type_named(s: Seq<char>) -> Option<WasmType> {
    if s == "i32"@ {
        Some(WasmType::I32)
    } else if s == "i64"@ {
        Some(WasmType::I64)
    } else if s == "f32"@ {
        Some(WasmType::F32)
    } else if s == "f64"@ {
        Some(WasmType::F64)
    } else {
        None
    }
}

/// Whether two strings hold the same characters.
fn same_text(a: &str, b: &str) -> (r: bool)
    ensures
        r == (a@ == b@),
{
    String::from_str(a) == String::from_str(b)
}

impl WasmType {
    /// Parses a text format keyword (`i32`, `i64`, `f32`, `f64`).
    pub fn from_str(s: &str) -> (r: Option<WasmType>)
        ensures
            r == wasm_type_named(s@),
    {
        if same_text(s, "i32") {
            Some(WasmType::I32)
        } else if same_text(s, "i64") {
            Some(WasmType::I64)
        } else if same_text(s, "f32") {
            Some(WasmType::F32)
        } else if same_text(s, "f64") {
            Some(WasmType::F64)
        } else {
            None
        }
    }
}

/// The table from a language type name to a number type, as an
/// association list in which a later entry wins.
pub open spec fn g_table_value(s: Seq<(String, WasmType)>) -> Map<Seq<char>, WasmType>
    decreases s.len(),
{
    if s.len() == 0 {
        Map::empty()
    } else {
        g_table_value(s.drop_last()).insert(s.last().0@, s.last().1)
    }
}

/// The table from a number type to a language type name, as an association
/// list in which a later entry wins.
pub open spec fn wasm_table_value(s: Seq<(WasmType, String)>) -> Map<WasmType, Seq<char>>
    decreases s.len(),
{
    if s.len() == 0 {
        Map::empty()
    } else {
        wasm_table_value(s.drop_last()).insert(s.last().0, s.last().1@)
    }
}

/// The number type that each language type is passed as.
pub open spec fn default_g_to_wasm() -> Map<Seq<char>, WasmType> {
    map![
        "Int"@ => WasmType::I32,
        "Float"@ => WasmType::F64,
        "Bool"@ => WasmType::I32,
        "String"@ => WasmType::I32,
    ]
}

/// The language type that each number type is read back as.
pub open spec fn default_wasm_to_g() -> Map<WasmType, Seq<char>> {
    map![
        WasmType::I32 => "Int"@,
        WasmType::I64 => "Int"@,
        WasmType::F32 => "Float"@,
        WasmType::F64 => "Float"@,
    ]
}

/// The correspondence between the language's types and WebAssembly number
/// types, in both directions.
#[derive(Debug)]
pub struct TypeMapping {
    g_to_wasm: Vec<(String, WasmType)>,
    wasm_to_g: Vec<(WasmType, String)>,
}

impl View for TypeMapping {
    type V = (Map<Seq<char>, WasmType>, Map<WasmType, Seq<char>>);

    closed spec fn view(&self) -> (Map<Seq<char>, WasmType>, Map<WasmType, Seq<char>>) {
        (g_table_value(self.g_to_wasm@), wasm_table_value(self.wasm_to_g@))
    }
}

/// The entry deciding a name in a name table is its last one.
proof fn lemma_g_table_last(s: Seq<(String, WasmType)>, k: Seq<char>, j: int)
    requires
        0 <= j < s.len(),
        s[j].0@ == k,
        forall|i: int| j < i < s.len() ==> #[trigger] s[i].0@ != k,
    ensures
        g_table_value(s).contains_key(k),
        g_table_value(s)[k] == s[j].1,
    decreases s.len(),
{
    if j < s.len() - 1 {
        let p = s.drop_last();
        assert forall|i: int| j < i < p.len() implies #[trigger] p[i].0@ != k by {
            assert(p[i] == s[i]);
        }
        lemma_g_table_last(p, k, j);
    }
}

/// A name carried by no entry of a name table is absent from it.
proof fn lemma_g_table_absent(s: Seq<(String, WasmType)>, k: Seq<char>)
    requires
        forall|i: int| 0 <= i < s.len() ==> #[trigger] s[i].0@ != k,
    ensures
        !g_table_value(s).contains_key(k),
    decreases s.len(),
{
    if s.len() > 0 {
        let p = s.drop_last();
        assert forall|i: int| 0 <= i < p.len() implies #[trigger] p[i].0@ != k by {
            assert(p[i] == s[i]);
        }
        lemma_g_table_absent(p, k);
    }
}

/// The entry deciding a number type in a type table is its last one.
proof fn lemma_wasm_table_last(s: Seq<(WasmType, String)>, k: WasmType, j: int)
    requires
        0 <= j < s.len(),
        s[j].0 == k,
        forall|i: int| j < i < s.len() ==> #[trigger] s[i].0 != k,
    ensures
        wasm_table_value(s).contains_key(k),
        wasm_table_value(s)[k] == s[j].1@,
    decreases s.len(),
{
    if j < s.len() - 1 {
        let p = s.drop_last();
        assert forall|i: int| j < i < p.len() implies #[trigger] p[i].0 != k by {
            assert(p[i] == s[i]);
        }
        lemma_wasm_table_last(p, k, j);
    }
}

/// A number type carried by no entry of a type table is absent from it.
proof fn lemma_wasm_table_absent(s: Seq<(WasmType, String)>, k: WasmType)
    requires
        forall|i: int| 0 <= i < s.len() ==> #[trigger] s[i].0 != k,
    ensures
        !wasm_table_value(s).contains_key(k),
    decreases s.len(),
{
    if s.len() > 0 {
        let p = s.drop_last();
        assert forall|i: int| 0 <= i < p.len() implies #[trigger] p[i].0 != k by {
            assert(p[i] == s[i]);
        }
        lemma_wasm_table_absent(p, k);
    }
}

impl TypeMapping {
    /// The default correspondence: `Int`, `Bool` and `String` are passed as
    /// `i32`, `Float` as `f64`; integer types read back as `Int`, float
    /// types as `Float`.
    pub fn new() -> (m: TypeMapping)
        ensures
            m@.0 == default_g_to_wasm(),
            m@.1 == default_wasm_to_g(),
    {
        let mut g_to_wasm: Vec<(String, WasmType)> = Vec::new();
        let mut wasm_to_g: Vec<(WasmType, String)> = Vec::new();

        g_to_wasm.push((String::from_str("Int"), WasmType::I32));
        g_to_wasm.push((String::from_str("Float"), WasmType::F64));
        g_to_wasm.push((String::from_str("Bool"), WasmType::I32));
        g_to_wasm.push((String::from_str("String"), WasmType::I32));

        wasm_to_g.push((WasmType::I32, String::from_str("Int")));
        wasm_to_g.push((WasmType::I64, String::from_str("Int")));
        wasm_to_g.push((WasmType::F32, String::from_str("Float")));
        wasm_to_g.push((WasmType::F64, String::from_str("Float")));

        proof {
            reveal_strlit("Int");
            reveal_strlit("Float");
            reveal_strlit("Bool");
            reveal_strlit("String");
            reveal_with_fuel(g_table_value, 5);
            reveal_with_fuel(wasm_table_value, 5);
            let s = g_to_wasm@;
            assert(s.drop_last().drop_last().drop_last().drop_last() =~= Seq::empty());
            assert(g_table_value(s) =~= default_g_to_wasm());
            let t = wasm_to_g@;
            assert(t.drop_last().drop_last().drop_last().drop_last() =~= Seq::empty());
            assert(wasm_table_value(t) =~= default_wasm_to_g());
        }
        TypeMapping { g_to_wasm, wasm_to_g }
    }

    /// The number type that language type `g_type` is passed as, if any.
    pub fn get_wasm_type(&self, g_type: &str) -> (r: Option<WasmType>)
        ensures
            r == (if self@.0.contains_key(g_type@) {
                Some(self@.0[g_type@])
            } else {
                None
            }),
    {
        let mut i = self.g_to_wasm.len();
        while i > 0
            invariant
                i <= self.g_to_wasm@.len(),
                forall|k: int|
                    i <= k < self.g_to_wasm@.len() ==> #[trigger] self.g_to_wasm@[k].0@ != g_type@,
            decreases i,
        {
            i = i - 1;
            if same_text(self.g_to_wasm[i].0.as_str(), g_type) {
                proof {
                    lemma_g_table_last(self.g_to_wasm@, g_type@, i as int);
                }
                return Some(self.g_to_wasm[i].1);
            }
        }
        proof {
            lemma_g_table_absent(self.g_to_wasm@, g_type@);
        }
        None
    }

    /// The language type that number type `wasm_type` is read back as, if any.
    pub fn get_g_type(&self, wasm_type: WasmType) -> (r: Option<String>)
        ensures
            match r {
                Some(s) => self@.1.contains_key(wasm_type) && s@ == self@.1[wasm_type],
                None => !self@.1.contains_key(wasm_type),
            },
    {
        let mut i = self.wasm_to_g.len();
        while i > 0
            invariant
                i <= self.wasm_to_g@.len(),
                forall|k: int|
                    i <= k < self.wasm_to_g@.len() ==> #[trigger] self.wasm_to_g@[k].0 != wasm_type,
            decreases i,
        {
            i = i - 1;
            if self.wasm_to_g[i].0 == wasm_type {
                proof {
                    lemma_wasm_table_last(self.wasm_to_g@, wasm_type, i as int);
                }
                return Some(self.wasm_to_g[i].1.clone());
            }
        }
        proof {
            lemma_wasm_table_absent(self.wasm_to_g@, wasm_type);
        }
        None
    }
}

impl Default for TypeMapping {
    fn default() -> (m: TypeMapping)
        ensures
            m@.0 == default_g_to_wasm(),
            m@.1 == default_wasm_to_g(),
    {
        TypeMapping::new()
    }
}

/// Every number type is read back as some language type.
pub proof fn law_every_wasm_type_has_g_type(w: WasmType)
    ensures
        default_wasm_to_g().contains_key(w),
{
}

/// `Int` and `Float` survive the trip to a number type and back.
pub proof fn law_numeric_g_types_round_trip(g: Seq<char>)
    requires
        g == "Int"@ || g == "Float"@,
    ensures
        default_g_to_wasm().contains_key(g),
        default_wasm_to_g()[default_g_to_wasm()[g]] == g,
{
    reveal_strlit("Int");
    reveal_strlit("Float");
    reveal_strlit("Bool");
    reveal_strlit("String");
}

/// A number type read back as a language type and passed again keeps its
/// kind: integer types come back as `i32`, float types as `f64`.
pub proof fn law_wasm_type_kind_round_trip(w: WasmType)
    ensures
        default_g_to_wasm().contains_key(default_wasm_to_g()[w]),
        default_g_to_wasm()[default_wasm_to_g()[w]] == (match w {
            WasmType::I32 | WasmType::I64 => WasmType::I32,
            WasmType::F32 | WasmType::F64 => WasmType::F64,
        }),
{
    reveal_strlit("Int");
    reveal_strlit("Float");
    reveal_strlit("Bool");
    reveal_strlit("String");
    match w {
        WasmType::I32 | WasmType::I64 => {
            assert(default_wasm_to_g()[w] == "Int"@);
        },
        WasmType::F32 | WasmType::F64 => {
            assert(default_wasm_to_g()[w] == "Float"@);
        },
    }
}

} // verus!
