//! The decisions of loading a WebAssembly module by its import path: the
//! module's name, its key in the module registry, and which file to load.
use vstd::prelude::*;
use vstd::string::StringExecFns;
use crate::object::{ErrorValue, RuntimeError};

verus! {

/// The parts of a path joined with `sep` between neighbours.
pub open spec fn join_with(parts: Seq<Seq<char>>, sep: Seq<char>) -> Seq<char>
    decreases parts.len(),
{
    if parts.len() == 0 {
        Seq::empty()
    } else if parts.len() == 1 {
        parts[0]
    } else {
        join_with(parts.drop_last(), sep) + sep + parts.last()
    }
}

/// The name of the module imported by `path`: its parts joined with `::`.
pub fn wasm_module_name(path: &[String]) -> (r: Result<String, RuntimeError>)
    ensures
        path@.len() == 0 ==> (r matches Err(e) && e@ == ErrorValue::InvalidOperation(
            "wasm module name is required"@,
        )),
        path@.len() > 0 ==> (r matches Ok(name) && name@ == join_with(
            path@.map_values(|p: String| p@),
            "::"@,
        )),
{
    if path.len() == 0 {
        return Err(RuntimeError::InvalidOperation(String::from_str("wasm module name is required")));
    }
    let ghost parts = path@.map_values(|p: String| p@);
    let mut name = path[0].clone();
    let mut i: usize = 1;
    proof {
        assert(parts.subrange(0, 1).len() == 1);
    }
    while i < path.len()
        invariant
            1 <= i <= path@.len(),
            parts == path@.map_values(|p: String| p@),
            name@ == join_with(parts.subrange(0, i as int), "::"@),
        decreases path@.len() - i,
    {
        name = name.concat("::").concat(path[i].as_str());
        proof {
            let next = parts.subrange(0, i + 1);
            assert(next.drop_last() =~= parts.subrange(0, i as int));
        }
        i = i + 1;
    }
    proof {
        assert(parts.subrange(0, path@.len() as int) =~= parts);
    }
    Ok(name)
}

/// The key under which the module registry keeps a loaded wasm module.
pub fn wasm_registry_key(module_name: &str) -> (r: String)
    ensures
        r@ == "wasm::"@ + module_name@,
{
    String::from_str("wasm::").concat(module_name)
}

/// The file a wasm module is loaded from.
#[derive(Debug, PartialEq, Eq, Structural)]
pub enum WasmModuleFile {
    /// The binary file (`.wasm`).
    Binary,
    /// The text file (`.wat`).
    Text,
}

/// Picks the file to load a module from: the binary file when it exists,
/// else the text file when it exists.
pub fn choose_wasm_module_file(wasm_exists: bool, wat_exists: bool, module_name: &str) -> (r: Result<
    WasmModuleFile,
    RuntimeError,
>)
    ensures
        wasm_exists ==> r == Ok::<WasmModuleFile, RuntimeError>(WasmModuleFile::Binary),
        !wasm_exists && wat_exists ==> r == Ok::<WasmModuleFile, RuntimeError>(
            WasmModuleFile::Text,
        ),
        !wasm_exists && !wat_exists ==> (r matches Err(e) && e@ == ErrorValue::InvalidOperation(
            "Failed to find wasm module '"@ + module_name@
                + "': neither .wasm nor .wat file found"@,
        )),
{
    if wasm_exists {
        Ok(WasmModuleFile::Binary)
    } else if wat_exists {
        Ok(WasmModuleFile::Text)
    } else {
        let msg = String::from_str("Failed to find wasm module '").concat(module_name).concat(
            "': neither .wasm nor .wat file found",
        );
        Err(RuntimeError::InvalidOperation(msg))
    }
}


/// The table described by an association list from keys: later entries win.
pub open spec fn keyed_value<M>(s: Seq<(String, M)>) -> Map<Seq<char>, M>
    decreases s.len(),
{
    if s.len() == 0 {
        Map::empty()
    } else {
        keyed_value(s.drop_last()).insert(s.last().0@, s.last().1)
    }
}

/// The entry deciding a key is the last one that carries it.
proof fn lemma_keyed_last<M>(s: Seq<(String, M)>, k: Seq<char>, j: int)
    requires
        0 <= j < s.len(),
        s[j].0@ == k,
        forall|i: int| j < i < s.len() ==> #[trigger] s[i].0@ != k,
    ensures
        keyed_value(s).contains_key(k),
        keyed_value(s)[k] == s[j].1,
    decreases s.len(),
{
    if j < s.len() - 1 {
        let p = s.drop_last();
        assert forall|i: int| j < i < p.len() implies #[trigger] p[i].0@ != k by {
            assert(p[i] == s[i]);
        }
        lemma_keyed_last(p, k, j);
    }
}

/// A key that no entry carries is absent.
proof fn lemma_keyed_absent<M>(s: Seq<(String, M)>, k: Seq<char>)
    requires
        forall|i: int| 0 <= i < s.len() ==> #[trigger] s[i].0@ != k,
    ensures
        !keyed_value(s).contains_key(k),
    decreases s.len(),
{
    if s.len() > 0 {
        let p = s.drop_last();
        assert forall|i: int| 0 <= i < p.len() implies #[trigger] p[i].0@ != k by {
            assert(p[i] == s[i]);
        }
        lemma_keyed_absent(p, k);
    }
}

/// The wasm part of the module registry: the loaded modules, by registry
/// key, and the runtime, which a load takes while it compiles and hands back
/// when it is done.
pub struct WasmRegistry<M, R> {
    loaded: Vec<(String, M)>,
    runtime: Option<R>,
}

impl<M, R> View for WasmRegistry<M, R> {
    type V = (Map<Seq<char>, M>, Option<R>);

    closed spec fn view(&self) -> (Map<Seq<char>, M>, Option<R>) {
        (keyed_value(self.loaded@), self.runtime)
    }
}

impl<M, R> WasmRegistry<M, R> {
    /// A registry with no modules loaded and the given runtime.
    pub fn new(runtime: Option<R>) -> (reg: Self)
        ensures
            reg@.0 == Map::<Seq<char>, M>::empty(),
            reg@.1 == runtime,
    {
        WasmRegistry { loaded: Vec::new(), runtime }
    }

    /// The module loaded under `key`, if any.
    pub fn cached(&self, key: &str) -> (r: Option<&M>)
        ensures
            match r {
                Some(m) => self@.0.contains_key(key@) && *m == self@.0[key@],
                None => !self@.0.contains_key(key@),
            },
    {
        let mut i = self.loaded.len();
        while i > 0
            invariant
                i <= self.loaded@.len(),
                forall|k: int| i <= k < self.loaded@.len() ==> #[trigger] self.loaded@[k].0@ != key@,
            decreases i,
        {
            i = i - 1;
            if String::from_str(key) == self.loaded[i].0 {
                proof {
                    lemma_keyed_last(self.loaded@, key@, i as int);
                }
                return Some(&self.loaded[i].1);
            }
        }
        proof {
            lemma_keyed_absent(self.loaded@, key@);
        }
        None
    }

    /// Takes the runtime for a load, or fails when another load holds it.
    pub fn take_runtime(&mut self) -> (r: Result<R, RuntimeError>)
        ensures
            final(self)@.0 == old(self)@.0,
            final(self)@.1 is None,
            match old(self)@.1 {
                Some(rt) => r == Ok::<R, RuntimeError>(rt),
                None => r matches Err(e) && e@ == ErrorValue::InvalidOperation(
                    "WASM runtime not available"@,
                ),
            },
    {
        match self.runtime.take() {
            Some(rt) => Ok(rt),
            None => Err(
                RuntimeError::InvalidOperation(String::from_str("WASM runtime not available")),
            ),
        }
    }

    /// Records a finished load: the module under `key`, and the runtime back.
    pub fn finish_load(&mut self, key: String, module: M, runtime: R)
        ensures
            final(self)@.0 == old(self)@.0.insert(key@, module),
            final(self)@.1 == Some(runtime),
    {
        self.loaded.push((key, module));
        self.runtime = Some(runtime);
        proof {
            assert(self.loaded@.drop_last() =~= old(self).loaded@);
        }
    }
}

/// A module recorded by a finished load is found by every later lookup of
/// its key, and the runtime is free again: a second load of the same module
/// is answered from the registry.
pub proof fn law_load_then_cached<M, R>(
    before: (Map<Seq<char>, M>, Option<R>),
    after: (Map<Seq<char>, M>, Option<R>),
    key: Seq<char>,
    module: M,
    runtime: R,
)
    requires
        after.0 == before.0.insert(key, module),
        after.1 == Some(runtime),
    ensures
        after.0.contains_key(key),
        after.0[key] == module,
        after.1 is Some,
        forall|k: Seq<char>| k != key ==> after.0.contains_key(k) == before.0.contains_key(k),
{
}

} // verus!
