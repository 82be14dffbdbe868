//! Loading WebAssembly modules and components from bytes: recognising the
//! binary and text formats, and handing them to the compiler.
use vstd::prelude::*;
use vstd::slice::slice_to_vec;
use vstd::string::{StrSliceExecFns, StringExecFns};
use vstd::utf8::{decode_utf8, valid_utf8};
use crate::object::{ErrorValue, RuntimeError};
use crate::wasm_memory::utf8_string;
use wasmtime::component::Component;
use wasmtime::{Engine, Module};

verus! {

/// `wasmtime::Engine`: the compilation environment.
#[verifier::external_type_specification]
#[verifier::external_body]
pub struct ExEngine(Engine);

/// `wasmtime::Module`: a compiled core WebAssembly module.
#[verifier::external_type_specification]
#[verifier::external_body]
pub struct ExModule(Module);

/// `wasmtime::component::Component`: a compiled WebAssembly component.
#[verifier::external_type_specification]
#[verifier::external_body]
pub struct ExComponent(Component);

/// The form in which a file holds a WebAssembly program.
#[derive(Debug, PartialEq, Eq, Structural)]
pub enum WasmFormat {
    /// Binary core module (header version 1).
    ClassicBinary,
    /// Binary component (any other header version).
    ComponentBinary,
    /// Text format of a core module.
    ModuleText,
    /// Text format of a component.
    ComponentText,
    /// None of the above.
    Unrecognized,
}

/// The form of a program together with its text, for the text formats.
pub enum WasmSource {
    ClassicBinary,
    ComponentBinary,
    ModuleText(String),
    ComponentText(String),
    Unrecognized,
}

impl WasmSource {
    /// The form that this source is in.
    pub open spec fn format(self) -> WasmFormat {
        match self {
            WasmSource::ClassicBinary => WasmFormat::ClassicBinary,
            WasmSource::ComponentBinary => WasmFormat::ComponentBinary,
            WasmSource::ModuleText(_) => WasmFormat::ModuleText,
            WasmSource::ComponentText(_) => WasmFormat::ComponentText,
            WasmSource::Unrecognized => WasmFormat::Unrecognized,
        }
    }
}

/// Whether `c` has the Unicode `White_Space` property.
pub open spec fn unicode_white_space(c: char) -> bool {
    let u = c as u32;
    ||| 0x09 <= u <= 0x0D
    ||| u == 0x20
    ||| u == 0x85
    ||| u == 0xA0
    ||| u == 0x1680
    ||| 0x2000 <= u <= 0x200A
    ||| u == 0x2028
    ||| u == 0x2029
    ||| u == 0x202F
    ||| u == 0x205F
    ||| u == 0x3000
}

/// The number of white space characters at the start of `t`.
pub open spec fn leading_white_space(t: Seq<char>) -> int
    decreases t.len(),
{
    if t.len() > 0 && unicode_white_space(t[0]) {
        1 + leading_white_space(t.subrange(1, t.len() as int))
    } else {
        0
    }
}

/// `t` without its leading white space.
pub open spec fn trim_start(t: Seq<char>) -> Seq<char> {
    t.subrange(leading_white_space(t), t.len() as int)
}

/// Whether `t` begins with `prefix`.
pub open spec fn starts_with(t: Seq<char>, prefix: Seq<char>) -> bool {
    prefix.len() <= t.len() && t.subrange(0, prefix.len() as int) == prefix
}

/// Whether `b` begins with the WebAssembly magic number and a version field.
pub open spec fn has_wasm_header(b: Seq<u8>) -> bool {
    b.len() >= 8 && b[0] == 0x00 && b[1] == 0x61 && b[2] == 0x73 && b[3] == 0x6d
}

/// Whether the header's version field is 1 (a core module).
pub open spec fn is_module_version(b: Seq<u8>) -> bool {
    b[4] == 0x01 && b[5] == 0x00 && b[6] == 0x00 && b[7] == 0x00
}

/// The form of the program held by `b`.
pub open spec fn wasm_format(b: Seq<u8>) -> WasmFormat {
    if has_wasm_header(b) {
        if is_module_version(b) {
            WasmFormat::ClassicBinary
        } else {
            WasmFormat::ComponentBinary
        }
    } else if valid_utf8(b) && (starts_with(trim_start(decode_utf8(b)), "(module"@) || starts_with(
        trim_start(decode_utf8(b)),
        "(;"@,
    )) {
        WasmFormat::ModuleText
    } else if valid_utf8(b) && starts_with(trim_start(decode_utf8(b)), "(component"@) {
        WasmFormat::ComponentText
    } else {
        WasmFormat::Unrecognized
    }
}

/// Whether `c` is white space (has the Unicode `White_Space` property).
fn is_whitespace(c: char) -> (r: bool)
    ensures
        r == unicode_white_space(c),
{
    let u = c as u32;
    (0x09 <= u && u <= 0x0D) || u == 0x20 || u == 0x85 || u == 0xA0 || u == 0x1680 || (0x2000 <= u
        && u <= 0x200A) || u == 0x2028 || u == 0x2029 || u == 0x202F || u == 0x205F || u == 0x3000
}

/// The number of white space characters at the start of `s`.
fn count_leading_white_space(s: &str) -> (n: usize)
    ensures
        n == leading_white_space(s@),
        n <= s@.len(),
{
    let len = s.unicode_len();
    let mut i: usize = 0;
    assert(s@.subrange(0, len as int) =~= s@);
    while i < len && is_whitespace(s.get_char(i))
        invariant
            len == s@.len(),
            i <= len,
            leading_white_space(s@) == i + leading_white_space(s@.subrange(i as int, len as int)),
        decreases len - i,
    {
        proof {
            let t = s@.subrange(i as int, len as int);
            assert(t.subrange(1, t.len() as int) =~= s@.subrange(i + 1, len as int));
        }
        i = i + 1;
    }
    proof {
        let t = s@.subrange(i as int, len as int);
        if i < len {
            assert(t[0] == s@[i as int]);
        }
        assert(t.len() == 0 || !unicode_white_space(t[0]));
    }
    i
}

/// Whether `s`, from its `start`-th character on, begins with `prefix`.
fn text_starts_with(s: &str, start: usize, prefix: &str) -> (r: bool)
    requires
        start <= s@.len(),
    ensures
        r == starts_with(s@.subrange(start as int, s@.len() as int), prefix@),
{
    let len = s.unicode_len();
    let plen = prefix.unicode_len();
    if len - start < plen {
        return false;
    }
    let mut i: usize = 0;
    while i < plen
        invariant
            len == s@.len(),
            plen == prefix@.len(),
            start + plen <= len,
            i <= plen,
            forall|j: int| 0 <= j < i ==> #[trigger] s@[start + j] == prefix@[j],
        decreases plen - i,
    {
        if s.get_char(start + i) != prefix.get_char(i) {
            proof {
                let t = s@.subrange(start as int, len as int);
                assert(t.subrange(0, plen as int)[i as int] != prefix@[i as int]);
            }
            return false;
        }
        i = i + 1;
    }
    proof {
        let t = s@.subrange(start as int, len as int);
        assert forall|j: int| 0 <= j < plen implies #[trigger] t.subrange(0, plen as int)[j]
            == prefix@[j] by {
            assert(t[j] == s@[start + j]);
        }
        assert(t.subrange(0, plen as int) =~= prefix@);
    }
    true
}

/// Tells the form of the program held by `bytes`; for the text formats,
/// also hands back the text.
pub fn detect_wasm_format(bytes: &[u8]) -> (r: WasmSource)
    ensures
        r.format() == wasm_format(bytes@),
        r matches WasmSource::ModuleText(t) ==> t@ == decode_utf8(bytes@),
        r matches WasmSource::ComponentText(t) ==> t@ == decode_utf8(bytes@),
{
    if bytes.len() >= 8 && bytes[0] == 0x00 && bytes[1] == 0x61 && bytes[2] == 0x73 && bytes[3]
        == 0x6d {
        if bytes[4] == 0x01 && bytes[5] == 0x00 && bytes[6] == 0x00 && bytes[7] == 0x00 {
            return WasmSource::ClassicBinary;
        } else {
            return WasmSource::ComponentBinary;
        }
    }
    match utf8_string(slice_to_vec(bytes)) {
        Ok(text) => {
            let skip = count_leading_white_space(text.as_str());
            proof {
                assert(trim_start(text@) == text@.subrange(skip as int, text@.len() as int));
            }
            if text_starts_with(text.as_str(), skip, "(module") || text_starts_with(
                text.as_str(),
                skip,
                "(;",
            ) {
                WasmSource::ModuleText(text)
            } else if text_starts_with(text.as_str(), skip, "(component") {
                WasmSource::ComponentText(text)
            } else {
                WasmSource::Unrecognized
            }
        },
        Err(_) => WasmSource::Unrecognized,
    }
}

/// `wat::parse_str`: encodes a program in the WebAssembly text format in the
/// binary format.  Nothing is claimed of the outcome: besides the text, it
/// depends on the process environment (a variable that makes the component
/// syntax strict).  An error is handed back as its `Display` text.
#[verifier::external_body]
fn wat_to_binary(text: &str) -> (r: Result<Vec<u8>, String>) {
    match wat::parse_str(text) {
        Ok(b) => Ok(b),
        Err(e) => Err(format!("{}", e)),
    }
}

/// `wasmtime::Module::new`: compiles a core module for `engine`.  Nothing is
/// claimed of the outcome; an error is handed back as its `Display` text.
#[verifier::external_body]
fn compile_module(engine: &Engine, bytes: &[u8]) -> (r: Result<Module, String>) {
    match Module::new(engine, bytes) {
        Ok(m) => Ok(m),
        Err(e) => Err(format!("{}", e)),
    }
}

/// `wasmtime::component::Component::new`: compiles a component for
/// `engine`.  Nothing is claimed of the outcome; an error is handed back as
/// its `Display` text.
#[verifier::external_body]
fn compile_component(engine: &Engine, bytes: &[u8]) -> (r: Result<Component, String>) {
    match Component::new(engine, bytes) {
        Ok(c) => Ok(c),
        Err(e) => Err(format!("{}", e)),
    }
}

/// A loaded WebAssembly program.
pub enum WasmModule {
    /// A component (component model, WASI preview 2).
    Component { component: Component },
    /// A core module (WASI preview 1).
    Classic { module: Module },
}

/// Whether `r` is a compiled program of the given kind, or an error whose
/// message is `prefix` followed by the compiler's.
pub open spec fn compiled_or_failed(
    r: Result<WasmModule, RuntimeError>,
    classic: bool,
    prefix: Seq<char>,
) -> bool {
    match r {
        Ok(m) => (m is Classic) == classic,
        Err(e) => exists|detail: Seq<char>| e@ == ErrorValue::InvalidOperation(prefix + detail),
    }
}

/// The message of a compile failure of a program called `name`.
pub open spec fn compile_failure_prefix(classic: bool, name: Seq<char>) -> Seq<char> {
    if classic {
        "Failed to compile wasm module '"@ + name + "': "@
    } else {
        "Failed to compile wasm component '"@ + name + "': "@
    }
}

/// The message of a text-format failure of a program called `name`.
pub open spec fn wat_failure_prefix(classic: bool, name: Seq<char>) -> Seq<char> {
    if classic {
        "Failed to parse WAT for module '"@ + name + "': "@
    } else {
        "Failed to parse WAT for component '"@ + name + "': "@
    }
}

/// The message for bytes that hold no WebAssembly program, for a program
/// called `name`.
pub open spec fn unrecognized_message(name: Seq<char>) -> Seq<char> {
    "File '"@ + name + "' does not appear to be a valid WASM module or component"@
}

/// Whether `r` is what `wasm_binary` gives for the program `bytes` called
/// `name`: the bytes themselves for a binary program, with whether it is a
/// core module; for a text program, a binary of the same kind or the
/// text-format error; for anything else, the error saying so.
pub open spec fn binary_of(
    r: Result<(bool, Vec<u8>), RuntimeError>,
    name: Seq<char>,
    bytes: Seq<u8>,
) -> bool {
    match wasm_format(bytes) {
        WasmFormat::ClassicBinary => r matches Ok((classic, b)) && classic && b@ == bytes,
        WasmFormat::ComponentBinary => r matches Ok((classic, b)) && !classic && b@ == bytes,
        WasmFormat::ModuleText => match r {
            Ok((classic, _)) => classic,
            Err(e) => exists|detail: Seq<char>|
                e@ == ErrorValue::InvalidOperation(wat_failure_prefix(true, name) + detail),
        },
        WasmFormat::ComponentText => match r {
            Ok((classic, _)) => !classic,
            Err(e) => exists|detail: Seq<char>|
                e@ == ErrorValue::InvalidOperation(wat_failure_prefix(false, name) + detail),
        },
        WasmFormat::Unrecognized => r matches Err(e) && e@ == ErrorValue::InvalidOperation(
            unrecognized_message(name),
        ),
    }
}

/// The binary program to compile for the program `bytes` called `name`, and
/// whether it is a core module (else a component): binary programs are
/// taken as they are, text programs are encoded in binary.
pub fn wasm_binary(name: &str, bytes: &[u8]) -> (r: Result<(bool, Vec<u8>), RuntimeError>)
    ensures
        binary_of(r, name@, bytes@),
{
    match detect_wasm_format(bytes) {
        WasmSource::ClassicBinary => Ok((true, slice_to_vec(bytes))),
        WasmSource::ComponentBinary => Ok((false, slice_to_vec(bytes))),
        WasmSource::ModuleText(t) => match wat_to_binary(t.as_str()) {
            Ok(b) => Ok((true, b)),
            Err(e) => {
                let msg = String::from_str("Failed to parse WAT for module '").concat(name).concat(
                    "': ",
                ).concat(e.as_str());
                proof {
                    assert(msg@ == wat_failure_prefix(true, name@) + e@);
                }
                Err(RuntimeError::InvalidOperation(msg))
            },
        },
        WasmSource::ComponentText(t) => match wat_to_binary(t.as_str()) {
            Ok(b) => Ok((false, b)),
            Err(e) => {
                let msg = String::from_str("Failed to parse WAT for component '").concat(
                    name,
                ).concat("': ").concat(e.as_str());
                proof {
                    assert(msg@ == wat_failure_prefix(false, name@) + e@);
                }
                Err(RuntimeError::InvalidOperation(msg))
            },
        },
        WasmSource::Unrecognized => {
            let msg = String::from_str("File '").concat(name).concat(
                "' does not appear to be a valid WASM module or component",
            );
            Err(RuntimeError::InvalidOperation(msg))
        },
    }
}

/// What loading the program `bytes` called `name` gives: the error of
/// `wasm_binary`, or the outcome of compiling its binary as a core module or
/// a component.
pub open spec fn loaded_from(
    r: Result<WasmModule, RuntimeError>,
    name: Seq<char>,
    bytes: Seq<u8>,
) -> bool {
    match wasm_format(bytes) {
        WasmFormat::ClassicBinary => compiled_or_failed(r, true, compile_failure_prefix(true, name)),
        WasmFormat::ComponentBinary => compiled_or_failed(
            r,
            false,
            compile_failure_prefix(false, name),
        ),
        WasmFormat::ModuleText => compiled_or_failed(r, true, compile_failure_prefix(true, name))
            || (r matches Err(e) && exists|detail: Seq<char>|
            e@ == ErrorValue::InvalidOperation(wat_failure_prefix(true, name) + detail)),
        WasmFormat::ComponentText => compiled_or_failed(
            r,
            false,
            compile_failure_prefix(false, name),
        ) || (r matches Err(e) && exists|detail: Seq<char>|
            e@ == ErrorValue::InvalidOperation(wat_failure_prefix(false, name) + detail)),
        WasmFormat::Unrecognized => r matches Err(e) && e@ == ErrorValue::InvalidOperation(
            unrecognized_message(name),
        ),
    }
}

impl WasmModule {
    /// Compiles a core module.
    fn load_classic_module(engine: &Engine, name: &str, wasm_bytes: &[u8]) -> (r: Result<
        WasmModule,
        RuntimeError,
    >)
        ensures
            compiled_or_failed(r, true, compile_failure_prefix(true, name@)),
    {
        match compile_module(engine, wasm_bytes) {
            Ok(module) => Ok(WasmModule::Classic { module }),
            Err(e) => {
                let msg = String::from_str("Failed to compile wasm module '").concat(name).concat(
                    "': ",
                ).concat(e.as_str());
                proof {
                    assert(msg@ == compile_failure_prefix(true, name@) + e@);
                }
                Err(RuntimeError::InvalidOperation(msg))
            },
        }
    }

    /// Compiles a component.
    fn load_component(engine: &Engine, name: &str, wasm_bytes: &[u8]) -> (r: Result<
        WasmModule,
        RuntimeError,
    >)
        ensures
            compiled_or_failed(r, false, compile_failure_prefix(false, name@)),
    {
        match compile_component(engine, wasm_bytes) {
            Ok(component) => Ok(WasmModule::Component { component }),
            Err(e) => {
                let msg = String::from_str("Failed to compile wasm component '").concat(
                    name,
                ).concat("': ").concat(e.as_str());
                proof {
                    assert(msg@ == compile_failure_prefix(false, name@) + e@);
                }
                Err(RuntimeError::InvalidOperation(msg))
            },
        }
    }

    /// Loads a program from its bytes: compiles the binary that
    /// `wasm_binary` gives for them, as a core module or a component.
    pub fn load_from_binary(engine: &Engine, name: &str, wasm_bytes: &[u8]) -> (r: Result<
        WasmModule,
        RuntimeError,
    >)
        ensures
            loaded_from(r, name@, wasm_bytes@),
    {
        match wasm_binary(name, wasm_bytes) {
            Ok((true, binary)) => Self::load_classic_module(engine, name, binary.as_slice()),
            Ok((false, binary)) => Self::load_component(engine, name, binary.as_slice()),
            Err(e) => Err(e),
        }
    }

    /// Loads a program from its bytes (see `load_from_binary`).
    pub fn load_from_bytes(engine: &Engine, name: &str, bytes: &[u8]) -> (r: Result<
        WasmModule,
        RuntimeError,
    >)
        ensures
            loaded_from(r, name@, bytes@),
    {
        Self::load_from_binary(engine, name, bytes)
    }

    /// The kind of this program, for messages.
    pub fn name(&self) -> (r: &'static str)
        ensures
            r@ == (if self is Classic {
                "classic"@
            } else {
                "component"@
            }),
    {
        match self {
            WasmModule::Component { .. } => "component",
            WasmModule::Classic { .. } => "classic",
        }
    }
}

} // verus!
