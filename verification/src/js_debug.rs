//! JavaScript debugging: scripts and their source maps, breakpoints, pause
//! and step control, call frames and evaluation.

use vstd::prelude::*;
use vstd::string::StringSliceAdditionalSpecFns;
use vstd::utf8::encode_utf8;
use vstd::wrapping::u64_specs;

use crate::source_map::{
    lines_of, source_map_error_text, text_lines, url_in_lines, OriginalLocation,
    Position, SourceMap, SourceMapError,
};
use crate::protocol::ProtocolError;
use crate::str_map::StrMap;
use crate::text::{
    chars_contain, chars_of, concat_str, contains_seq, decimal_digits, decimal_string,
    hex_digits, hex_string, owned, split_chars, str_eq, trim_chars, trimmed, utf8_len,
};

verus! {

/// Errors of debugger operations.
#[derive(Debug)]
pub enum JsDebugBridgeError {
    /// The debugger is not enabled.
    NotEnabled,
    /// The debugger is not paused.
    NotPaused,
    /// No script with this id or URL.
    ScriptNotFound(String),
    /// No breakpoint with this id.
    BreakpointNotFound(String),
    /// No call frame with this id.
    CallFrameNotFound(String),
    /// A source map failed to load.
    SourceMapError(SourceMapError),
    /// A parameter is not valid.
    InvalidParameter(String),
    /// Evaluation failed.
    EvaluationError(String),
}

/// The text of a debugger error.
pub open spec fn debug_error_text(e: JsDebugBridgeError) -> Seq<char> {
    match e {
        JsDebugBridgeError::NotEnabled => "Debugger not enabled"@,
        JsDebugBridgeError::NotPaused => "Debugger not paused"@,
        JsDebugBridgeError::ScriptNotFound(m) => "Script not found: "@ + m@,
        JsDebugBridgeError::BreakpointNotFound(m) => "Breakpoint not found: "@ + m@,
        JsDebugBridgeError::CallFrameNotFound(m) => "Call frame not found: "@ + m@,
        JsDebugBridgeError::SourceMapError(e) => "Source map error: "@ + source_map_error_text(e),
        JsDebugBridgeError::InvalidParameter(m) => "Invalid parameter: "@ + m@,
        JsDebugBridgeError::EvaluationError(m) => "Evaluation error: "@ + m@,
    }
}

impl JsDebugBridgeError {
    /// The error's text.
    pub fn message(&self) -> (m: String)
        ensures
            m@ == debug_error_text(*self),
    {
        match self {
            JsDebugBridgeError::NotEnabled => owned("Debugger not enabled"),
            JsDebugBridgeError::NotPaused => owned("Debugger not paused"),
            JsDebugBridgeError::ScriptNotFound(m) => concat_str("Script not found: ", m.as_str()),
            JsDebugBridgeError::BreakpointNotFound(m) => concat_str("Breakpoint not found: ", m.as_str()),
            JsDebugBridgeError::CallFrameNotFound(m) => concat_str("Call frame not found: ", m.as_str()),
            JsDebugBridgeError::SourceMapError(e) => {
                let inner = e.message();
                concat_str("Source map error: ", inner.as_str())
            },
            JsDebugBridgeError::InvalidParameter(m) => concat_str("Invalid parameter: ", m.as_str()),
            JsDebugBridgeError::EvaluationError(m) => concat_str("Evaluation error: ", m.as_str()),
        }
    }
}

/// A location in a script.
#[derive(Debug)]
pub struct Location {
    /// Script id.
    pub script_id: String,
    /// Line (0-based).
    pub line_number: u32,
    /// Column (0-based), if given.
    pub column_number: Option<u32>,
}

impl Clone for Location {
    fn clone(&self) -> (r: Self)
        ensures
            r == *self,
    {
        Location {
            script_id: self.script_id.clone(),
            line_number: self.line_number,
            column_number: self.column_number,
        }
    }
}

/// Why the debugger paused.
#[derive(Debug, Clone, Copy, PartialEq, Eq, Structural)]
pub enum PausedReason {
    Ambiguous,
    Assert,
    CspViolation,
    DebugCommand,
    Dom,
    EventListener,
    Exception,
    Instrumentation,
    Oom,
    Other,
    PromiseRejection,
    Xhr,
    Step,
}

/// The kind of a scope in a scope chain.
#[derive(Debug, Clone, Copy, PartialEq, Eq, Structural)]
pub enum ScopeType {
    Global,
    Local,
    With,
    Closure,
    Catch,
    Block,
    Script,
    Eval,
    Module,
    WasmExpressionStack,
}

/// The type of a remote object.
#[derive(Debug, Clone, Copy, PartialEq, Eq, Structural)]
pub enum RemoteObjectType {
    Object,
    Function,
    Undefined,
    String,
    Number,
    Boolean,
    Symbol,
    Bigint,
}

/// The subtype of an object-typed remote object.
#[derive(Debug, Clone, Copy, PartialEq, Eq, Structural)]
pub enum RemoteObjectSubtype {
    Array,
    Null,
    Node,
    Regexp,
    Date,
    Error,
}

/// A primitive value carried by a remote object.
#[derive(Debug)]
pub enum JsValue {
    /// An integer number.
    Number(i64),
    /// A boolean.
    Bool(bool),
    /// A string.
    Str(String),
    /// `null`.
    Null,
}

/// A handle on a value in the debuggee.
#[derive(Debug)]
pub struct RemoteObject {
    /// Value type.
    pub object_type: RemoteObjectType,
    /// Object subtype.
    pub subtype: Option<RemoteObjectSubtype>,
    /// Class name of objects.
    pub class_name: Option<String>,
    /// Primitive value.
    pub value: Option<JsValue>,
    /// Value that JSON cannot hold (`NaN`, `Infinity`, ...).
    pub unserializable_value: Option<String>,
    /// Description.
    pub description: Option<String>,
    /// Object id.
    pub object_id: Option<String>,
}

/// A scope of a call frame.
#[derive(Debug)]
pub struct Scope {
    /// Scope kind.
    pub scope_type: ScopeType,
    /// The scope object.
    pub object: RemoteObject,
    /// Scope name.
    pub name: Option<String>,
    /// Start of the scope.
    pub start_location: Option<Location>,
    /// End of the scope.
    pub end_location: Option<Location>,
}

/// A call frame of a paused debuggee.
#[derive(Debug)]
pub struct CallFrame {
    /// Frame id.
    pub call_frame_id: String,
    /// Function name.
    pub function_name: String,
    /// Current location.
    pub location: Location,
    /// Script URL.
    pub url: String,
    /// Scope chain, innermost first.
    pub scope_chain: Vec<Scope>,
    /// `this` object.
    pub this: RemoteObject,
    /// Return value, when stopped at a return.
    pub return_value: Option<RemoteObject>,
}

/// A registered script.
#[derive(Debug)]
pub struct ScriptInfo {
    /// Script id.
    pub script_id: String,
    /// Script URL.
    pub url: String,
    /// Source text.
    pub source: String,
    /// Start line in the containing document.
    pub start_line: u32,
    /// Start column.
    pub start_column: u32,
    /// Last line (0-based).
    pub end_line: u32,
    /// Length in bytes of the last line.
    pub end_column: u32,
    /// Execution context id.
    pub execution_context_id: u32,
    /// Hash of the source, in lowercase hexadecimal.
    pub hash: String,
    /// Source map URL named in the source, if any.
    pub source_map_url: Option<String>,
    /// Whether the source looks like a module.
    pub is_module: bool,
    /// Length of the source in bytes.
    pub length: u32,
}

fn clone_opt_string(o: &Option<String>) -> (r: Option<String>)
    ensures
        r == *o,
{
    match o {
        Some(s) => Some(s.clone()),
        None => None,
    }
}

impl Clone for ScriptInfo {
    fn clone(&self) -> (r: Self)
        ensures
            r == *self,
    {
        ScriptInfo {
            script_id: self.script_id.clone(),
            url: self.url.clone(),
            source: self.source.clone(),
            start_line: self.start_line,
            start_column: self.start_column,
            end_line: self.end_line,
            end_column: self.end_column,
            execution_context_id: self.execution_context_id,
            hash: self.hash.clone(),
            source_map_url: clone_opt_string(&self.source_map_url),
            is_module: self.is_module,
            length: self.length,
        }
    }
}

/// A breakpoint.
#[derive(Debug)]
pub struct BreakpointInfo {
    /// Breakpoint id.
    pub id: String,
    /// Location in the generated code.
    pub location: Location,
    /// Original location, when the script has a source map.
    pub original_location: Option<OriginalLocation>,
    /// Condition expression.
    pub condition: Option<String>,
    /// Log point message.
    pub log_message: Option<String>,
    /// Hit count.
    pub hit_count: u32,
    /// Whether the breakpoint is enabled.
    pub enabled: bool,
}

/// A step action.
#[derive(Debug, Clone, Copy, PartialEq, Eq, Structural)]
pub enum StepAction {
    /// Next line, without entering calls.
    StepOver,
    /// Into calls.
    StepInto,
    /// Out of the current function.
    StepOut,
    /// Continue.
    Continue,
}

/// When to pause on exceptions.
#[derive(Debug, Clone, Copy, PartialEq, Eq, Structural)]
pub enum PauseOnExceptionsMode {
    /// Never.
    Never,
    /// On uncaught exceptions.
    Uncaught,
    /// On all exceptions.
    All,
}

/// A variable of a scope.
#[derive(Debug)]
pub struct PropertyInfo {
    /// Property name.
    pub name: String,
    /// Property value.
    pub value: RemoteObject,
    /// Whether writable.
    pub writable: bool,
    /// Whether configurable.
    pub configurable: bool,
    /// Whether enumerable.
    pub enumerable: bool,
}

/// The state of a paused debuggee.
#[derive(Debug)]
pub struct PauseState {
    /// Why it paused.
    pub reason: PausedReason,
    /// Its call frames.
    pub call_frames: Vec<CallFrame>,
    /// Breakpoints hit.
    pub hit_breakpoints: Vec<String>,
    /// Exception data.
    pub data: Option<JsValue>,
}

impl Clone for JsValue {
    fn clone(&self) -> (r: Self)
        ensures
            r == *self,
    {
        match self {
            JsValue::Number(n) => JsValue::Number(*n),
            JsValue::Bool(b) => JsValue::Bool(*b),
            JsValue::Str(s) => JsValue::Str(s.clone()),
            JsValue::Null => JsValue::Null,
        }
    }
}

impl Clone for RemoteObject {
    fn clone(&self) -> (r: Self)
        ensures
            r == *self,
    {
        RemoteObject {
            object_type: self.object_type,
            subtype: self.subtype,
            class_name: clone_opt_string(&self.class_name),
            value: match &self.value {
                Some(v) => Some(v.clone()),
                None => None,
            },
            unserializable_value: clone_opt_string(&self.unserializable_value),
            description: clone_opt_string(&self.description),
            object_id: clone_opt_string(&self.object_id),
        }
    }
}

fn clone_opt_location(o: &Option<Location>) -> (r: Option<Location>)
    ensures
        r == *o,
{
    match o {
        Some(l) => Some(l.clone()),
        None => None,
    }
}

impl Clone for Scope {
    fn clone(&self) -> (r: Self)
        ensures
            r == *self,
    {
        Scope {
            scope_type: self.scope_type,
            object: self.object.clone(),
            name: clone_opt_string(&self.name),
            start_location: clone_opt_location(&self.start_location),
            end_location: clone_opt_location(&self.end_location),
        }
    }
}

fn clone_scopes(v: &Vec<Scope>) -> (r: Vec<Scope>)
    ensures
        r@ == v@,
{
    let mut r: Vec<Scope> = Vec::new();
    let mut i: usize = 0;
    while i < v.len()
        invariant
            i <= v@.len(),
            r@ == v@.take(i as int),
        decreases v@.len() - i,
    {
        r.push(v[i].clone());
        proof {
            assert(r@ =~= v@.take(i + 1));
        }
        i = i + 1;
    }
    proof {
        assert(v@.take(i as int) =~= v@);
    }
    r
}

/// Two call frames hold the same data.
pub open spec fn same_frame(a: CallFrame, b: CallFrame) -> bool {
    &&& a.call_frame_id == b.call_frame_id
    &&& a.function_name == b.function_name
    &&& a.location == b.location
    &&& a.url == b.url
    &&& a.scope_chain@ == b.scope_chain@
    &&& a.this == b.this
    &&& a.return_value == b.return_value
}

/// Two frame lists hold the same frames.
pub open spec fn same_frames(a: Seq<CallFrame>, b: Seq<CallFrame>) -> bool {
    a.len() == b.len() && forall|i: int| 0 <= i < a.len() ==> #[trigger] same_frame(a[i], b[i])
}

impl Clone for CallFrame {
    fn clone(&self) -> (r: Self)
        ensures
            same_frame(r, *self),
    {
        CallFrame {
            call_frame_id: self.call_frame_id.clone(),
            function_name: self.function_name.clone(),
            location: self.location.clone(),
            url: self.url.clone(),
            scope_chain: clone_scopes(&self.scope_chain),
            this: self.this.clone(),
            return_value: match &self.return_value {
                Some(v) => Some(v.clone()),
                None => None,
            },
        }
    }
}

/// A copy of a list of call frames.
pub fn clone_frames(v: &Vec<CallFrame>) -> (r: Vec<CallFrame>)
    ensures
        same_frames(r@, v@),
{
    let mut r: Vec<CallFrame> = Vec::new();
    let mut i: usize = 0;
    while i < v.len()
        invariant
            i <= v@.len(),
            r@.len() == i,
            forall|j: int| 0 <= j < i ==> #[trigger] same_frame(r@[j], v@[j]),
        decreases v@.len() - i,
    {
        r.push(v[i].clone());
        i = i + 1;
    }
    r
}

/// Events the debugger reports.
#[derive(Debug)]
pub enum DebugEvent {
    /// A script was registered.
    ScriptParsed(ScriptInfo),
    /// A script failed to parse.
    ScriptFailedToParse { script_id: String, url: String, error: String },
    /// The debuggee paused.
    Paused(PauseState),
    /// The debuggee resumed.
    Resumed,
    /// A breakpoint was set.
    BreakpointResolved { breakpoint_id: String, location: Location },
}

/// Whether a character is a lowercase hexadecimal digit.
pub open spec fn is_lower_hex(c: char) -> bool {
    ('0' <= c && c <= '9') || ('a' <= c && c <= 'f')
}

/// The text of a random (version 4) UUID: 36 characters, hyphens at
/// 8, 13, 18 and 23, lowercase hexadecimal digits elsewhere, the version
/// digit `4` at 14 and a variant digit `8`, `9`, `a` or `b` at 19.
pub open spec fn uuid_v4_text(s: Seq<char>) -> bool {
    &&& s.len() == 36
    &&& forall|i: int| 0 <= i < 36 ==> if i == 8 || i == 13 || i == 18 || i == 23 {
        s[i] == '-'
    } else {
        is_lower_hex(#[trigger] s[i])
    }
    &&& s[14] == '4'
    &&& (s[19] == '8' || s[19] == '9' || s[19] == 'a' || s[19] == 'b')
}

/// `Uuid::new_v4` written with `to_string`: random bits under the
/// version-4 mask, in the hyphenated lowercase form. Which digits come out
/// is chance; the form is fixed.
#[verifier::external_body]
fn new_uuid() -> (r: String)
    ensures
        uuid_v4_text(r@),
{
    uuid::Uuid::new_v4().to_string()
}

/// Whether an identifier is `prefix` followed by the text of a random
/// UUID.
pub open spec fn prefixed_uuid(id: Seq<char>, prefix: Seq<char>) -> bool {
    &&& id.len() == prefix.len() + 36
    &&& id.take(prefix.len() as int) == prefix
    &&& uuid_v4_text(id.skip(prefix.len() as int))
}

/// A fresh identifier: `prefix` followed by a random UUID.
fn fresh_id(prefix: &str) -> (r: String)
    ensures
        prefixed_uuid(r@, prefix@),
{
    let u = new_uuid();
    let r = concat_str(prefix, u.as_str());
    proof {
        assert(r@.take(prefix@.len() as int) =~= prefix@);
        assert(r@.skip(prefix@.len() as int) =~= u@);
    }
    r
}

// ---------------------------------------------------------------------------
// Script metadata
// ---------------------------------------------------------------------------

/// Rotates a 64-bit value left by seven bits.
pub open spec fn rotate7(x: u64) -> u64 {
    (x << 7u64) | (x >> 57u64)
}

/// One byte through the script hash: add the byte times its 1-based
/// position (wrapping), then rotate left by seven bits.
pub open spec fn hash_step(h: u64, i: int, b: u8) -> u64 {
    rotate7(
        u64_specs::wrapping_add(
            h,
            u64_specs::wrapping_mul(b as u64, u64_specs::wrapping_add(i as u64, 1)),
        ),
    )
}

/// The script hash of a byte sequence.
pub open spec fn script_hash(bytes: Seq<u8>) -> u64
    decreases bytes.len(),
{
    if bytes.len() == 0 {
        0
    } else {
        hash_step(script_hash(bytes.drop_last()), bytes.len() - 1, bytes.last())
    }
}

/// A simple (non-cryptographic) hash of the UTF-8 bytes of a text.
pub fn md5_hash(input: &str) -> (h: u64)
    ensures
        h == script_hash(input.spec_bytes()),
{
    let bytes = input.as_bytes();
    let mut hash: u64 = 0;
    let mut i: usize = 0;
    while i < bytes.len()
        invariant
            i <= bytes@.len(),
            bytes@ == input.spec_bytes(),
            hash == script_hash(bytes@.take(i as int)),
        decreases bytes@.len() - i,
    {
        proof {
            assert(bytes@.take(i + 1).drop_last() =~= bytes@.take(i as int));
        }
        let b = bytes[i];
        hash = hash.wrapping_add((b as u64).wrapping_mul((i as u64).wrapping_add(1)));
        hash = (hash << 7u64) | (hash >> 57u64);
        i = i + 1;
    }
    proof {
        assert(bytes@.take(i as int) =~= bytes@);
    }
    hash
}

/// The last line of a script (0-based).
pub open spec fn script_end_line(src: Seq<char>) -> u32 {
    let ls = text_lines(src);
    if ls.len() == 0 {
        0
    } else {
        (ls.len() - 1) as u32
    }
}

/// The length in bytes of the last line of a script.
pub open spec fn script_end_column(src: Seq<char>) -> u32 {
    let ls = text_lines(src);
    if ls.len() == 0 {
        0
    } else {
        encode_utf8(ls.last()).len() as u32
    }
}

/// Whether a source looks like a module.
pub open spec fn looks_like_module(src: Seq<char>) -> bool {
    contains_seq(src, "import "@) || contains_seq(src, "export "@)
}

// ---------------------------------------------------------------------------
// Mock evaluation
// ---------------------------------------------------------------------------

/// `s` without leading and trailing `"` characters.
pub open spec fn trim_quotes(s: Seq<char>) -> Seq<char>
    decreases s.len(),
{
    if s.len() > 0 && s[0] == '"' {
        trim_quotes(s.drop_first())
    } else if s.len() > 0 && s.last() == '"' {
        trim_quotes(s.drop_last())
    } else {
        s
    }
}

/// A remote object with only a type, a value, a description and an
/// unserializable value.
pub open spec fn plain_object(
    r: RemoteObject,
    t: RemoteObjectType,
    value: Option<JsValue>,
    unserializable: Option<Seq<char>>,
    description: Seq<char>,
) -> bool {
    &&& r.object_type == t
    &&& r.subtype is None
    &&& r.class_name is None
    &&& r.value == value
    &&& match unserializable {
        Some(u) => r.unserializable_value matches Some(x) && x@ == u,
        None => r.unserializable_value is None,
    }
    &&& r.description matches Some(d) && d@ == description
    &&& r.object_id is None
}

/// What evaluating an expression gives: a handful of literals are known,
/// everything else is `undefined`.
pub open spec fn evaluated(expr: Seq<char>, r: RemoteObject) -> bool {
    let s = trimmed(expr);
    if s == "42"@ || s == "21 + 21"@ {
        plain_object(r, RemoteObjectType::Number, Some(JsValue::Number(42)), None, "42"@)
    } else if s == "true"@ {
        plain_object(r, RemoteObjectType::Boolean, Some(JsValue::Bool(true)), None, "true"@)
    } else if s == "false"@ {
        plain_object(r, RemoteObjectType::Boolean, Some(JsValue::Bool(false)), None, "false"@)
    } else if s.len() > 0 && s[0] == '"' && s.last() == '"' {
        &&& r.object_type == RemoteObjectType::String
        &&& r.subtype is None
        &&& r.class_name is None
        &&& r.value matches Some(JsValue::Str(v)) && v@ == trim_quotes(s)
        &&& r.unserializable_value is None
        &&& r.description matches Some(d) && d@ == s
        &&& r.object_id is None
    } else if s == "NaN"@ {
        plain_object(r, RemoteObjectType::Number, None, Some("NaN"@), "NaN"@)
    } else if s == "Infinity"@ {
        plain_object(r, RemoteObjectType::Number, None, Some("Infinity"@), "Infinity"@)
    } else if s == "null"@ {
        &&& r.object_type == RemoteObjectType::Object
        &&& r.subtype == Some(RemoteObjectSubtype::Null)
        &&& r.class_name is None
        &&& r.value == Some(JsValue::Null)
        &&& r.unserializable_value is None
        &&& r.description matches Some(d) && d@ == "null"@
        &&& r.object_id is None
    } else {
        plain_object(r, RemoteObjectType::Undefined, None, Some("undefined"@), "undefined"@)
    }
}

fn plain(t: RemoteObjectType, value: Option<JsValue>, unserializable: Option<&str>, description: &str) -> (r: RemoteObject)
    ensures
        plain_object(
            r,
            t,
            value,
            match unserializable {
                Some(u) => Some(u@),
                None => None,
            },
            description@,
        ),
{
    RemoteObject {
        object_type: t,
        subtype: None,
        class_name: None,
        value,
        unserializable_value: match unserializable {
            Some(u) => Some(owned(u)),
            None => None,
        },
        description: Some(owned(description)),
        object_id: None,
    }
}

fn trim_quote_chars(s: &[char]) -> (r: Vec<char>)
    ensures
        r@ == trim_quotes(s@),
{
    let mut start: usize = 0;
    let mut end: usize = s.len();
    proof {
        assert(s@.subrange(0, s@.len() as int) =~= s@);
    }
    while start < end && s[start] == '"'
        invariant
            start <= end <= s@.len(),
            end == s@.len(),
            trim_quotes(s@) == trim_quotes(s@.subrange(start as int, end as int)),
        decreases end - start,
    {
        proof {
            assert(s@.subrange(start as int, end as int).drop_first() =~= s@.subrange(
                start + 1,
                end as int,
            ));
        }
        start = start + 1;
    }
    while start < end && s[end - 1] == '"'
        invariant
            start <= end <= s@.len(),
            trim_quotes(s@) == trim_quotes(s@.subrange(start as int, end as int)),
            start == end || s@[start as int] != '"',
        decreases end - start,
    {
        proof {
            let t = s@.subrange(start as int, end as int);
            assert(t.drop_last() =~= s@.subrange(start as int, end - 1));
        }
        end = end - 1;
    }
    let mut r: Vec<char> = Vec::new();
    let mut i = start;
    while i < end
        invariant
            start <= i <= end <= s@.len(),
            r@ == s@.subrange(start as int, i as int),
        decreases end - i,
    {
        r.push(s[i]);
        proof {
            assert(r@ =~= s@.subrange(start as int, i + 1));
        }
        i = i + 1;
    }
    r
}

/// Evaluates an expression against the built-in table of literals.
pub fn mock_evaluate(expression: &str) -> (r: RemoteObject)
    ensures
        evaluated(expression@, r),
{
    let cs = chars_of(expression);
    let t = trim_chars(cs.as_slice());
    let s = crate::text::string_from_chars(t.as_slice());
    let ss = s.as_str();
    if crate::text::str_eq(ss, "42") || crate::text::str_eq(ss, "21 + 21") {
        plain(RemoteObjectType::Number, Some(JsValue::Number(42)), None, "42")
    } else if crate::text::str_eq(ss, "true") {
        plain(RemoteObjectType::Boolean, Some(JsValue::Bool(true)), None, "true")
    } else if crate::text::str_eq(ss, "false") {
        plain(RemoteObjectType::Boolean, Some(JsValue::Bool(false)), None, "false")
    } else if t.len() > 0 && t[0] == '"' && t[t.len() - 1] == '"' {
        let inner = trim_quote_chars(t.as_slice());
        RemoteObject {
            object_type: RemoteObjectType::String,
            subtype: None,
            class_name: None,
            value: Some(JsValue::Str(crate::text::string_from_chars(inner.as_slice()))),
            unserializable_value: None,
            description: Some(s.clone()),
            object_id: None,
        }
    } else if crate::text::str_eq(ss, "NaN") {
        plain(RemoteObjectType::Number, None, Some("NaN"), "NaN")
    } else if crate::text::str_eq(ss, "Infinity") {
        plain(RemoteObjectType::Number, None, Some("Infinity"), "Infinity")
    } else if crate::text::str_eq(ss, "null") {
        RemoteObject {
            object_type: RemoteObjectType::Object,
            subtype: Some(RemoteObjectSubtype::Null),
            class_name: None,
            value: Some(JsValue::Null),
            unserializable_value: None,
            description: Some(owned("null")),
            object_id: None,
        }
    } else {
        plain(RemoteObjectType::Undefined, None, Some("undefined"), "undefined")
    }
}

/// An object handle with a class name and a fresh `obj-` id.
pub fn create_mock_remote_object(class_name: &str) -> (r: RemoteObject)
    ensures
        mock_object(r, class_name@),
        r.object_type == RemoteObjectType::Object,
        r.subtype is None,
        r.class_name matches Some(c) && c@ == class_name@,
        r.value is None,
        r.unserializable_value is None,
        r.description matches Some(d) && d@ == class_name@,
        r.object_id matches Some(id) && prefixed_uuid(id@, "obj-"@),
{
    let id = fresh_id("obj-");
    proof {
        reveal_strlit("obj-");
    }
    RemoteObject {
        object_type: RemoteObjectType::Object,
        subtype: None,
        class_name: Some(owned(class_name)),
        value: None,
        unserializable_value: None,
        description: Some(owned(class_name)),
        object_id: Some(id),
    }
}

/// The remote-object type a type name stands for (`object` for unknown
/// names).
pub open spec fn type_named(name: Seq<char>) -> RemoteObjectType {
    if name == "number"@ {
        RemoteObjectType::Number
    } else if name == "string"@ {
        RemoteObjectType::String
    } else if name == "boolean"@ {
        RemoteObjectType::Boolean
    } else if name == "undefined"@ {
        RemoteObjectType::Undefined
    } else {
        RemoteObjectType::Object
    }
}

/// A value handle of a named type; objects get a fresh `obj-` id.
pub fn create_mock_remote_object_value(kind_name: &str, value: Option<JsValue>) -> (r: RemoteObject)
    ensures
        r.object_type == type_named(kind_name@),
        r.subtype is None,
        r.class_name is None,
        r.value == value,
        r.unserializable_value is None,
        r.description is None,
        kind_name@ == "object"@ ==> (r.object_id matches Some(id) && prefixed_uuid(id@, "obj-"@)),
        kind_name@ != "object"@ ==> r.object_id is None,
{
    let object_type = if crate::text::str_eq(kind_name, "number") {
        RemoteObjectType::Number
    } else if crate::text::str_eq(kind_name, "string") {
        RemoteObjectType::String
    } else if crate::text::str_eq(kind_name, "boolean") {
        RemoteObjectType::Boolean
    } else if crate::text::str_eq(kind_name, "undefined") {
        RemoteObjectType::Undefined
    } else {
        RemoteObjectType::Object
    };
    let object_id = if crate::text::str_eq(kind_name, "object") {
        Some(fresh_id("obj-"))
    } else {
        None
    };
    RemoteObject {
        object_type,
        subtype: None,
        class_name: None,
        value,
        unserializable_value: None,
        description: None,
        object_id,
    }
}

// ---------------------------------------------------------------------------
// The bridge
// ---------------------------------------------------------------------------

/// The debugger's state.
pub struct JsDebugBridge {
    enabled: bool,
    paused: bool,
    script_counter: u32,
    breakpoint_counter: u32,
    scripts: StrMap<ScriptInfo>,
    scripts_by_url: StrMap<String>,
    source_maps: StrMap<SourceMap>,
    breakpoints: StrMap<BreakpointInfo>,
    breakpoints_by_location: StrMap<String>,
    call_frames: Vec<CallFrame>,
    pause_reason: Option<PausedReason>,
    hit_breakpoints: Vec<String>,
    listening: bool,
    events: Vec<DebugEvent>,
    skip_all_pauses: bool,
    pause_on_exceptions: PauseOnExceptionsMode,
    async_stack_trace_depth: u32,
}

/// The most events the log holds: past that, the oldest gives way.
pub const EVENT_LOG_CAPACITY: usize = 100;

/// The log with room for one more event: the oldest event leaves a full
/// log.
pub open spec fn log_room(log: Seq<DebugEvent>) -> Seq<DebugEvent> {
    if log.len() < EVENT_LOG_CAPACITY {
        log
    } else {
        log.drop_first()
    }
}

/// The log after an event: kept while someone listens, dropped otherwise.
pub open spec fn event_logged(log: Seq<DebugEvent>, listening: bool, e: DebugEvent) -> Seq<DebugEvent> {
    if listening {
        log_room(log).push(e)
    } else {
        log
    }
}

/// Appends an event to the log of a listened-to debugger.
fn log_event(events: &mut Vec<DebugEvent>, listening: bool, e: DebugEvent)
    requires
        old(events)@.len() <= EVENT_LOG_CAPACITY,
    ensures
        final(events)@ == event_logged(old(events)@, listening, e),
        final(events)@.len() <= EVENT_LOG_CAPACITY,
{
    if listening {
        if events.len() >= EVENT_LOG_CAPACITY {
            let _ = events.remove(0);
        }
        events.push(e);
    }
}

/// The result of a step: refused unless enabled and paused; otherwise the
/// debuggee resumes without its frames.
pub open spec fn stepped(before: JsDebugBridge, after: JsDebugBridge, r: Result<(), JsDebugBridgeError>) -> bool {
    &&& !before.spec_enabled() ==> (r matches Err(JsDebugBridgeError::NotEnabled)
        && after.spec_paused() == before.spec_paused() && after.frames() == before.frames()
        && after.pending_events() == before.pending_events())
    &&& before.spec_enabled() && !before.spec_paused() ==> (r matches Err(JsDebugBridgeError::NotPaused)
        && after.frames() == before.frames() && after.pending_events() == before.pending_events())
    &&& before.spec_enabled() && before.spec_paused() ==> {
        &&& r is Ok
        &&& !after.spec_paused()
        &&& after.frames().len() == 0
        &&& after.reason() is None
        &&& after.pending_events() == event_logged(before.pending_events(), before.is_listening(), DebugEvent::Resumed)
    }
    &&& after.is_listening() == before.is_listening()
    &&& after.spec_enabled() == before.spec_enabled()
    &&& after.script_map() == before.script_map()
    &&& after.breakpoint_map() == before.breakpoint_map()
    &&& after.skipping() == before.skipping()
}

/// The index of the first frame with an id.
pub open spec fn first_frame_with_id(frames: Seq<CallFrame>, id: Seq<char>) -> Option<int>
    decreases frames.len(),
{
    if frames.len() == 0 {
        None
    } else {
        match first_frame_with_id(frames.drop_last(), id) {
            Some(i) => Some(i),
            None => if frames.last().call_frame_id@ == id {
                Some(frames.len() - 1)
            } else {
                None
            },
        }
    }
}

fn find_frame(frames: &Vec<CallFrame>, id: &str) -> (r: Option<usize>)
    ensures
        match first_frame_with_id(frames@, id@) {
            Some(i) => r matches Some(k) && k as int == i,
            None => r is None,
        },
{
    let target = owned(id);
    let mut i: usize = 0;
    while i < frames.len()
        invariant
            i <= frames@.len(),
            target@ == id@,
            first_frame_with_id(frames@.take(i as int), id@) is None,
        decreases frames@.len() - i,
    {
        proof {
            assert(frames@.take(i + 1).drop_last() =~= frames@.take(i as int));
        }
        if frames[i].call_frame_id == target {
            proof {
                lemma_first_frame_prefix(frames@, i + 1, id@);
            }
            return Some(i);
        }
        i = i + 1;
    }
    proof {
        assert(frames@.take(i as int) =~= frames@);
    }
    None
}

proof fn lemma_first_frame_bound(frames: Seq<CallFrame>, id: Seq<char>)
    ensures
        first_frame_with_id(frames, id) matches Some(i) ==> 0 <= i < frames.len()
            && frames[i].call_frame_id@ == id,
    decreases frames.len(),
{
    if frames.len() > 0 {
        lemma_first_frame_bound(frames.drop_last(), id);
    }
}

proof fn lemma_first_frame_prefix(frames: Seq<CallFrame>, k: int, id: Seq<char>)
    requires
        0 <= k <= frames.len(),
        first_frame_with_id(frames.take(k), id) is Some,
    ensures
        first_frame_with_id(frames, id) == first_frame_with_id(frames.take(k), id),
    decreases frames.len() - k,
{
    if k < frames.len() {
        assert(frames.take(k + 1).drop_last() =~= frames.take(k));
        lemma_first_frame_prefix(frames, k + 1, id);
    } else {
        assert(frames.take(k) =~= frames);
    }
}

/// A mock object of a class: an object described by its class name, with
/// no value and a fresh `obj-` id.
pub open spec fn mock_object(r: RemoteObject, class_name: Seq<char>) -> bool {
    &&& r.object_type == RemoteObjectType::Object
    &&& r.subtype is None
    &&& r.class_name matches Some(c) && c@ == class_name
    &&& r.value is None
    &&& r.unserializable_value is None
    &&& r.description matches Some(d) && d@ == class_name
    &&& r.object_id matches Some(id) && prefixed_uuid(id@, "obj-"@)
}

/// The simulated call stack over the registered scripts: `main` at 10:5
/// in the first script (or `script-1` at `file:///test.js`), called from
/// `<anonymous>` at 1:0; frame ids start with `frame-`; their `this`
/// objects are mock `this` and `global` objects, with no return value; the
/// scopes are mock `Local`, `Closure` and `Global` scopes for `main` and a
/// mock `Global` scope for `<anonymous>`.
pub open spec fn simulated_stack(frames: Seq<CallFrame>, scripts: Seq<ScriptInfo>) -> bool {
    let (script_id, url) = if scripts.len() > 0 {
        (scripts[0].script_id@, scripts[0].url@)
    } else {
        ("script-1"@, "file:///test.js"@)
    };
    &&& frames.len() == 2
    &&& frames[0].function_name@ == "main"@
    &&& frames[0].location.script_id@ == script_id
    &&& frames[0].location.line_number == 10
    &&& frames[0].location.column_number == Some(5u32)
    &&& frames[0].url@ == url
    &&& frames[0].scope_chain@.len() == 3
    &&& mock_scope_of(frames[0].scope_chain@[0], ScopeType::Local, "Local"@)
    &&& mock_scope_of(frames[0].scope_chain@[1], ScopeType::Closure, "Closure"@)
    &&& mock_scope_of(frames[0].scope_chain@[2], ScopeType::Global, "Global"@)
    &&& frames[1].function_name@ == "<anonymous>"@
    &&& frames[1].location.script_id@ == script_id
    &&& frames[1].location.line_number == 1
    &&& frames[1].location.column_number == Some(0u32)
    &&& frames[1].url@ == url
    &&& frames[1].scope_chain@.len() == 1
    &&& mock_scope_of(frames[1].scope_chain@[0], ScopeType::Global, "Global"@)
    &&& mock_object(frames[0].this, "this"@)
    &&& mock_object(frames[1].this, "global"@)
    &&& frames[0].return_value is None
    &&& frames[1].return_value is None
    &&& forall|i: int|
        0 <= i < 2 ==> prefixed_uuid(#[trigger] frames[i].call_frame_id@, "frame-"@)
}

/// A mock scope: of a kind, named, its object a mock object of that name,
/// with no start or end.
pub open spec fn mock_scope_of(s: Scope, scope_type: ScopeType, name: Seq<char>) -> bool {
    &&& s.scope_type == scope_type
    &&& s.name matches Some(n) && n@ == name
    &&& mock_object(s.object, name)
    &&& s.start_location is None
    &&& s.end_location is None
}

fn mock_scope(scope_type: ScopeType, name: &str) -> (s: Scope)
    ensures
        mock_scope_of(s, scope_type, name@),
        s.scope_type == scope_type,
        s.name matches Some(n) && n@ == name@,
        s.object.class_name matches Some(c) && c@ == name@,
        s.start_location is None,
        s.end_location is None,
{
    Scope {
        scope_type,
        object: create_mock_remote_object(name),
        name: Some(owned(name)),
        start_location: None,
        end_location: None,
    }
}

fn clone_strings(v: &Vec<String>) -> (r: Vec<String>)
    ensures
        r@ == v@,
{
    let mut r: Vec<String> = Vec::new();
    let mut i: usize = 0;
    while i < v.len()
        invariant
            i <= v@.len(),
            r@ == v@.take(i as int),
        decreases v@.len() - i,
    {
        r.push(v[i].clone());
        proof {
            assert(r@ =~= v@.take(i + 1));
        }
        i = i + 1;
    }
    proof {
        assert(v@.take(i as int) =~= v@);
    }
    r
}

/// The counter after a `fetch_add(1)`, which wraps.
pub open spec fn u32_wrapping_next(n: u32) -> u32 {
    if n == u32::MAX {
        0
    } else {
        (n + 1) as u32
    }
}

/// The key of a breakpoint location: `script:line:column`.
pub open spec fn location_key(script_id: Seq<char>, line: u32, column: u32) -> Seq<char> {
    script_id + ":"@ + decimal_digits(line as nat) + ":"@ + decimal_digits(column as nat)
}

/// Splitting `a:d` at its last colon, where `d` holds only digits, gives
/// back `a` and `d`.
proof fn lemma_split_at_last_colon(a1: Seq<char>, d1: Seq<char>, a2: Seq<char>, d2: Seq<char>)
    requires
        a1 + ":"@ + d1 == a2 + ":"@ + d2,
        forall|i: int| 0 <= i < d1.len() ==> '0' <= #[trigger] d1[i] <= '9',
        forall|i: int| 0 <= i < d2.len() ==> '0' <= #[trigger] d2[i] <= '9',
    ensures
        a1 == a2,
        d1 == d2,
{
    reveal_strlit(":");
    let x = a1 + ":"@ + d1;
    let y = a2 + ":"@ + d2;
    assert(x.len() == y.len());
    if d1.len() < d2.len() {
        let j = a1.len() as int;
        assert(x[j] == ':');
        assert(y[j] == d2[j - a2.len() - 1]);
    } else if d2.len() < d1.len() {
        let j = a2.len() as int;
        assert(y[j] == ':');
        assert(x[j] == d1[j - a1.len() - 1]);
    }
    assert(a1.len() == a2.len());
    assert forall|i: int| 0 <= i < a1.len() implies a1[i] == a2[i] by {
        assert(x[i] == a1[i]);
        assert(y[i] == a2[i]);
    }
    assert forall|i: int| 0 <= i < d1.len() implies d1[i] == d2[i] by {
        assert(x[a1.len() + 1 + i] == d1[i]);
        assert(y[a2.len() + 1 + i] == d2[i]);
    }
    assert(a1 =~= a2);
    assert(d1 =~= d2);
}

/// A breakpoint is reported only at its own location: two locations share
/// a breakpoint key only when their script, line and column all agree.
pub proof fn breakpoint_keys_are_distinct(s1: Seq<char>, l1: u32, c1: u32, s2: Seq<char>, l2: u32, c2: u32)
    requires
        location_key(s1, l1, c1) == location_key(s2, l2, c2),
    ensures
        s1 == s2,
        l1 == l2,
        c1 == c2,
{
    crate::text::lemma_decimal_digits_chars(l1 as nat);
    crate::text::lemma_decimal_digits_chars(l2 as nat);
    crate::text::lemma_decimal_digits_chars(c1 as nat);
    crate::text::lemma_decimal_digits_chars(c2 as nat);
    lemma_split_at_last_colon(
        s1 + ":"@ + decimal_digits(l1 as nat),
        decimal_digits(c1 as nat),
        s2 + ":"@ + decimal_digits(l2 as nat),
        decimal_digits(c2 as nat),
    );
    lemma_split_at_last_colon(s1, decimal_digits(l1 as nat), s2, decimal_digits(l2 as nat));
    crate::text::lemma_decimal_digits_injective(l1 as nat, l2 as nat);
    crate::text::lemma_decimal_digits_injective(c1 as nat, c2 as nat);
}

/// The column a location stands for (0 when absent).
pub open spec fn column_or_zero(c: Option<u32>) -> u32 {
    match c {
        Some(c) => c,
        None => 0,
    }
}

fn location_key_string(script_id: &str, line: u32, column: u32) -> (r: String)
    ensures
        r@ == location_key(script_id@, line, column),
{
    let a = concat_str(script_id, ":");
    let l = decimal_string(line as u64);
    let b = concat_str(a.as_str(), l.as_str());
    let c = concat_str(b.as_str(), ":");
    let col = decimal_string(column as u64);
    let d = concat_str(c.as_str(), col.as_str());
    proof {
        assert(d@ =~= location_key(script_id@, line, column));
    }
    d
}

impl JsDebugBridge {
    /// Whether the debugger is enabled.
    pub closed spec fn spec_enabled(&self) -> bool {
        self.enabled
    }

    /// Whether the debuggee is paused.
    pub closed spec fn spec_paused(&self) -> bool {
        self.paused
    }

    /// The number the next script id takes.
    pub closed spec fn next_script_number(&self) -> u32 {
        self.script_counter
    }

    /// The number the next breakpoint id takes.
    pub closed spec fn next_breakpoint_number(&self) -> u32 {
        self.breakpoint_counter
    }

    /// Scripts by id.
    pub closed spec fn script_map(&self) -> Map<Seq<char>, ScriptInfo> {
        self.scripts@
    }

    /// Scripts in registration order.
    pub closed spec fn script_seq(&self) -> Seq<ScriptInfo> {
        self.scripts.value_seq()
    }

    /// Script ids by URL.
    pub closed spec fn script_ids_by_url(&self) -> Map<Seq<char>, String> {
        self.scripts_by_url@
    }

    /// Source maps by script id.
    pub closed spec fn source_map_of(&self) -> Map<Seq<char>, SourceMap> {
        self.source_maps@
    }

    /// Breakpoints by id.
    pub closed spec fn breakpoint_map(&self) -> Map<Seq<char>, BreakpointInfo> {
        self.breakpoints@
    }

    /// Breakpoint ids in the order they were set.
    pub closed spec fn breakpoint_ids(&self) -> Seq<Seq<char>> {
        self.breakpoints.key_seq()
    }

    /// Breakpoint ids by location key.
    pub closed spec fn breakpoint_at(&self) -> Map<Seq<char>, String> {
        self.breakpoints_by_location@
    }

    /// The current call frames.
    pub closed spec fn frames(&self) -> Seq<CallFrame> {
        self.call_frames@
    }

    /// Why the debuggee paused, while paused.
    pub closed spec fn reason(&self) -> Option<PausedReason> {
        self.pause_reason
    }

    /// Events not yet taken.
    pub closed spec fn pending_events(&self) -> Seq<DebugEvent> {
        self.events@
    }

    /// Whether someone has subscribed to the events.
    pub closed spec fn is_listening(&self) -> bool {
        self.listening
    }

    /// Whether pauses are skipped.
    pub closed spec fn skipping(&self) -> bool {
        self.skip_all_pauses
    }

    /// The exception pause mode.
    pub closed spec fn exception_mode(&self) -> PauseOnExceptionsMode {
        self.pause_on_exceptions
    }

    /// The async stack trace depth.
    pub closed spec fn async_depth(&self) -> u32 {
        self.async_stack_trace_depth
    }

    /// Every stored source map is well formed.
    pub closed spec fn wf(&self) -> bool {
        &&& forall|k: Seq<char>| #[trigger] self.source_maps@.contains_key(k) ==> self.source_maps@[k].wf()
        &&& self.events@.len() <= EVENT_LOG_CAPACITY
    }

    /// A disabled, running debugger with nothing registered.
    pub fn new() -> (b: Self)
        ensures
            b.wf(),
            !b.spec_enabled(),
            !b.spec_paused(),
            b.next_script_number() == 1,
            b.next_breakpoint_number() == 1,
            b.script_map() == Map::<Seq<char>, ScriptInfo>::empty(),
            b.script_seq().len() == 0,
            b.breakpoint_map() == Map::<Seq<char>, BreakpointInfo>::empty(),
            b.source_map_of() == Map::<Seq<char>, SourceMap>::empty(),
            b.frames().len() == 0,
            b.pending_events().len() == 0,
            !b.is_listening(),
            !b.skipping(),
            b.exception_mode() == PauseOnExceptionsMode::Never,
            b.async_depth() == 0,
    {
        JsDebugBridge {
            enabled: false,
            paused: false,
            script_counter: 1,
            breakpoint_counter: 1,
            scripts: StrMap::new(),
            scripts_by_url: StrMap::new(),
            source_maps: StrMap::new(),
            breakpoints: StrMap::new(),
            breakpoints_by_location: StrMap::new(),
            call_frames: Vec::new(),
            pause_reason: None,
            hit_breakpoints: Vec::new(),
            listening: false,
            events: Vec::new(),
            skip_all_pauses: false,
            pause_on_exceptions: PauseOnExceptionsMode::Never,
            async_stack_trace_depth: 0,
        }
    }

    /// Enables the debugger.
    pub fn enable(&mut self) -> (r: Result<(), JsDebugBridgeError>)
        requires
            old(self).wf(),
        ensures
            final(self).is_listening() == old(self).is_listening(),
            final(self).wf(),
            r is Ok,
            final(self).spec_enabled(),
            final(self).spec_paused() == old(self).spec_paused(),
            final(self).script_map() == old(self).script_map(),
            final(self).breakpoint_map() == old(self).breakpoint_map(),
            final(self).frames() == old(self).frames(),
            final(self).next_script_number() == old(self).next_script_number(),
            final(self).next_breakpoint_number() == old(self).next_breakpoint_number(),
            final(self).skipping() == old(self).skipping(),
            final(self).script_seq() == old(self).script_seq(),
            final(self).pending_events() == old(self).pending_events(),
            final(self).exception_mode() == old(self).exception_mode(),
            final(self).async_depth() == old(self).async_depth(),
    {
        self.enabled = true;
        Ok(())
    }

    /// Disables the debugger and forgets scripts, source maps, breakpoints
    /// and pause state.
    pub fn disable(&mut self) -> (r: Result<(), JsDebugBridgeError>)
        requires
            old(self).wf(),
        ensures
            final(self).is_listening() == old(self).is_listening(),
            final(self).wf(),
            r is Ok,
            !final(self).spec_enabled(),
            !final(self).spec_paused(),
            final(self).script_map() == Map::<Seq<char>, ScriptInfo>::empty(),
            final(self).script_ids_by_url() == Map::<Seq<char>, String>::empty(),
            final(self).source_map_of() == Map::<Seq<char>, SourceMap>::empty(),
            final(self).breakpoint_map() == Map::<Seq<char>, BreakpointInfo>::empty(),
            final(self).breakpoint_at() == Map::<Seq<char>, String>::empty(),
            final(self).frames().len() == 0,
            final(self).reason() is None,
            final(self).next_script_number() == old(self).next_script_number(),
            final(self).next_breakpoint_number() == old(self).next_breakpoint_number(),
            final(self).skipping() == old(self).skipping(),
            final(self).exception_mode() == old(self).exception_mode(),
    {
        self.enabled = false;
        self.paused = false;
        self.scripts.clear();
        self.scripts_by_url.clear();
        self.source_maps.clear();
        self.breakpoints.clear();
        self.breakpoints_by_location.clear();
        self.call_frames = Vec::new();
        self.pause_reason = None;
        self.hit_breakpoints = Vec::new();
        Ok(())
    }

    /// Whether the debugger is enabled.
    pub fn is_enabled(&self) -> (b: bool)
        ensures
            b == self.spec_enabled(),
    {
        self.enabled
    }

    /// Whether the debuggee is paused.
    pub fn is_paused(&self) -> (b: bool)
        ensures
            b == self.spec_paused(),
    {
        self.paused
    }

    /// Subscribes to the debugger's events: from now on they are logged
    /// (the last hundred kept) until taken.
    pub fn subscribe(&mut self)
        requires
            old(self).wf(),
        ensures
            final(self).wf(),
            final(self).is_listening(),
            final(self).pending_events() == old(self).pending_events(),
            final(self).spec_enabled() == old(self).spec_enabled(),
            final(self).spec_paused() == old(self).spec_paused(),
            final(self).script_map() == old(self).script_map(),
            final(self).breakpoint_map() == old(self).breakpoint_map(),
            final(self).frames() == old(self).frames(),
    {
        self.listening = true;
    }

    /// Takes the events reported since the last call, oldest first.
    pub fn take_events(&mut self) -> (r: Vec<DebugEvent>)
        requires
            old(self).wf(),
        ensures
            final(self).wf(),
            r@ == old(self).pending_events(),
            final(self).pending_events().len() == 0,
            final(self).is_listening() == old(self).is_listening(),
            final(self).spec_enabled() == old(self).spec_enabled(),
            final(self).spec_paused() == old(self).spec_paused(),
            final(self).script_map() == old(self).script_map(),
            final(self).breakpoint_map() == old(self).breakpoint_map(),
            final(self).frames() == old(self).frames(),
    {
        let mut r: Vec<DebugEvent> = Vec::new();
        std::mem::swap(&mut r, &mut self.events);
        r
    }

    /// Registers a script: gives it the next `script-N` id, measures it,
    /// hashes it, finds its source map URL, and reports it.
    pub fn add_script(&mut self, url: &str, source: &str) -> (r: Result<ScriptInfo, JsDebugBridgeError>)
        requires
            old(self).wf(),
        ensures
            final(self).is_listening() == old(self).is_listening(),
            final(self).wf(),
            !old(self).spec_enabled() ==> (r matches Err(JsDebugBridgeError::NotEnabled) && *final(self)
                == *old(self)),
            old(self).spec_enabled() ==> (r matches Ok(info) && {
                let id = "script-"@ + decimal_digits(old(self).next_script_number() as nat);
                &&& !old(self).script_map().contains_key(id) ==> final(self).script_seq()
                    == old(self).script_seq().push(info)
                &&& info.script_id@ == id
                &&& info.url@ == url@
                &&& info.source@ == source@
                &&& info.start_line == 0
                &&& info.start_column == 0
                &&& info.end_line == script_end_line(source@)
                &&& info.end_column == script_end_column(source@)
                &&& info.execution_context_id == 1
                &&& info.hash@ == hex_digits(script_hash(source.spec_bytes()) as nat)
                &&& match url_in_lines(text_lines(source@)) {
                    Some(u) => info.source_map_url matches Some(m) && m@ == u,
                    None => info.source_map_url is None,
                }
                &&& info.is_module == looks_like_module(source@)
                &&& info.length == source.spec_bytes().len() as u32
                &&& final(self).script_map() == old(self).script_map().insert(id, info)
                &&& final(self).script_ids_by_url().dom() == old(self).script_ids_by_url().dom().insert(url@)
                &&& final(self).script_ids_by_url()[url@]@ == id
                &&& final(self).next_script_number() == u32_wrapping_next(old(self).next_script_number())
                &&& final(self).pending_events() == event_logged(
                    old(self).pending_events(),
                    old(self).is_listening(),
                    DebugEvent::ScriptParsed(info),
                )
            }),
            final(self).spec_enabled() == old(self).spec_enabled(),
            final(self).spec_paused() == old(self).spec_paused(),
            final(self).source_map_of() == old(self).source_map_of(),
            final(self).breakpoint_map() == old(self).breakpoint_map(),
            final(self).breakpoint_at() == old(self).breakpoint_at(),
            final(self).frames() == old(self).frames(),
            final(self).reason() == old(self).reason(),
            final(self).next_breakpoint_number() == old(self).next_breakpoint_number(),
            final(self).skipping() == old(self).skipping(),
            final(self).exception_mode() == old(self).exception_mode(),
            final(self).async_depth() == old(self).async_depth(),
    {
        if !self.enabled {
            return Err(JsDebugBridgeError::NotEnabled);
        }
        let number = self.script_counter;
        self.script_counter = number.wrapping_add(1);
        let digits = decimal_string(number as u64);
        let script_id = concat_str("script-", digits.as_str());
        let lines = lines_of(source);
        let (end_line, end_column) = if lines.len() == 0 {
            (0u32, 0u32)
        } else {
            let last = &lines[lines.len() - 1];
            proof {
                assert(last@ == text_lines(source@).last());
            }
            ((lines.len() - 1) as u32, utf8_len(last.as_slice()) as u32)
        };
        let source_map_url = SourceMap::extract_url_from_source(source);
        let hash = hex_string(md5_hash(source));
        let cs = chars_of(source);
        let import_word = chars_of("import ");
        let export_word = chars_of("export ");
        let is_module = chars_contain(cs.as_slice(), import_word.as_slice()) || chars_contain(
            cs.as_slice(),
            export_word.as_slice(),
        );
        let length = source.as_bytes().len() as u32;
        let info = ScriptInfo {
            script_id: script_id.clone(),
            url: owned(url),
            source: owned(source),
            start_line: 0,
            start_column: 0,
            end_line,
            end_column,
            execution_context_id: 1,
            hash,
            source_map_url,
            is_module,
            length,
        };
        self.scripts.insert(script_id.clone(), info.clone());
        self.scripts_by_url.insert(owned(url), script_id);
        log_event(&mut self.events, self.listening, DebugEvent::ScriptParsed(info.clone()));
        Ok(info)
    }

    /// A registered script.
    pub fn get_script(&self, script_id: &str) -> (r: Option<&ScriptInfo>)
        ensures
            match r {
                Some(info) => self.script_map().contains_key(script_id@) && *info
                    == self.script_map()[script_id@],
                None => !self.script_map().contains_key(script_id@),
            },
    {
        self.scripts.get(script_id)
    }

    /// The source of a registered script.
    pub fn get_script_source(&self, script_id: &str) -> (r: Result<String, JsDebugBridgeError>)
        ensures
            match r {
                Ok(src) => self.script_map().contains_key(script_id@) && src@
                    == self.script_map()[script_id@].source@,
                Err(e) => !self.script_map().contains_key(script_id@) && (e matches JsDebugBridgeError::ScriptNotFound(
                    m,
                ) && m@ == script_id@),
            },
    {
        match self.scripts.get(script_id) {
            Some(info) => Ok(info.source.clone()),
            None => Err(JsDebugBridgeError::ScriptNotFound(owned(script_id))),
        }
    }

    /// All registered scripts, in registration order.
    pub fn get_all_scripts(&self) -> (r: Vec<&ScriptInfo>)
        ensures
            r@.len() == self.script_seq().len(),
            forall|i: int| 0 <= i < r@.len() ==> *r@[i] == self.script_seq()[i],
    {
        self.scripts.values()
    }

    /// The JSON text of a script's source map: inline (`data:`) maps are
    /// decoded; external maps are not fetched.
    pub fn load_source_map(&self, url: &str) -> (r: Result<String, JsDebugBridgeError>)
        ensures
            !crate::text::has_prefix(url@, "data:"@) ==> (r matches Err(
                JsDebugBridgeError::InvalidParameter(m),
            ) && m@ == "External source maps not yet supported"@),
            crate::text::has_prefix(url@, "data:"@) ==> match r {
                Ok(json) => crate::source_map::data_url_outcome(url, Ok(json)),
                Err(JsDebugBridgeError::SourceMapError(e)) => crate::source_map::data_url_outcome(
                    url,
                    Err(e),
                ),
                Err(_) => false,
            },
    {
        let cs = chars_of(url);
        let data = chars_of("data:");
        if crate::text::chars_start_with(cs.as_slice(), data.as_slice()) {
            match SourceMap::parse_data_url(url) {
                Ok(json) => Ok(json),
                Err(e) => Err(JsDebugBridgeError::SourceMapError(e)),
            }
        } else {
            Err(JsDebugBridgeError::InvalidParameter(owned("External source maps not yet supported")))
        }
    }

    /// Attaches a parsed source map to a script.
    pub fn attach_source_map(&mut self, script_id: &str, map: SourceMap)
        requires
            old(self).wf(),
            map.wf(),
        ensures
            final(self).is_listening() == old(self).is_listening(),
            final(self).wf(),
            final(self).source_map_of() == old(self).source_map_of().insert(script_id@, map),
            final(self).spec_enabled() == old(self).spec_enabled(),
            final(self).spec_paused() == old(self).spec_paused(),
            final(self).script_map() == old(self).script_map(),
            final(self).breakpoint_map() == old(self).breakpoint_map(),
            final(self).frames() == old(self).frames(),
            final(self).pending_events() == old(self).pending_events(),
    {
        self.source_maps.insert(owned(script_id), map);
    }

    /// The original location of a generated one, through the script's
    /// source map.
    pub fn get_original_location(&self, script_id: &str, line: u32, column: u32) -> (r: Option<OriginalLocation>)
        requires
            self.wf(),
        ensures
            !self.source_map_of().contains_key(script_id@) ==> r is None,
            self.source_map_of().contains_key(script_id@) ==> {
                let sm = self.source_map_of()[script_id@];
                let p = Position { line, column };
                &&& !sm.original_found(p) ==> r is None
                &&& sm.original_found(p) ==> (r matches Some(loc) && sm.original_location_at(p, loc))
            },
    {
        let sm = match self.source_maps.get(script_id) {
            Some(sm) => sm,
            None => {
                return None;
            },
        };
        match sm.original_position_for(Position::new(line, column)) {
            Ok(loc) => Some(loc),
            Err(_) => None,
        }
    }

    /// The generated position of an original one, through the script's
    /// source map.
    pub fn get_generated_location(&self, script_id: &str, source: &str, line: u32, column: u32) -> (r: Option<Position>)
        requires
            self.wf(),
        ensures
            !self.source_map_of().contains_key(script_id@) ==> r is None,
            self.source_map_of().contains_key(script_id@) ==> {
                let sm = self.source_map_of()[script_id@];
                match sm.resolved(source@) {
                    None => r is None,
                    Some(s) => match sm.original_lookup(s as usize, Position { line, column }) {
                        None => r is None,
                        Some(i) => r == Some(sm.mapping_seq()[i].generated),
                    },
                }
            },
    {
        let sm = match self.source_maps.get(script_id) {
            Some(sm) => sm,
            None => {
                return None;
            },
        };
        match sm.generated_position_for(source, Position::new(line, column)) {
            Ok(g) => Some(g.position),
            Err(_) => None,
        }
    }

    /// Whether a script has a source map.
    pub fn has_source_map(&self, script_id: &str) -> (b: bool)
        ensures
            b == self.source_map_of().contains_key(script_id@),
    {
        self.source_maps.contains_key(script_id)
    }

    /// Sets a breakpoint at a location: it gets the next `bp-N` id, the
    /// original location when the script has a source map, and is indexed
    /// by its location.
    pub fn set_breakpoint(&mut self, location: Location, condition: Option<String>) -> (r: Result<
        (String, Location),
        JsDebugBridgeError,
    >)
        requires
            old(self).wf(),
        ensures
            final(self).is_listening() == old(self).is_listening(),
            final(self).wf(),
            !old(self).spec_enabled() ==> (r matches Err(JsDebugBridgeError::NotEnabled)
                && final(self).breakpoint_map() == old(self).breakpoint_map()
                && final(self).breakpoint_at() == old(self).breakpoint_at()
                && final(self).next_breakpoint_number() == old(self).next_breakpoint_number()
                && final(self).pending_events() == old(self).pending_events()),
            old(self).spec_enabled() ==> (r matches Ok((id, loc)) && {
                let bp_id = "bp-"@ + decimal_digits(old(self).next_breakpoint_number() as nat);
                let key = location_key(
                    location.script_id@,
                    location.line_number,
                    column_or_zero(location.column_number),
                );
                let info = final(self).breakpoint_map()[bp_id];
                &&& id@ == bp_id
                &&& loc == location
                &&& final(self).breakpoint_map().dom() == old(self).breakpoint_map().dom().insert(bp_id)
                &&& forall|k: Seq<char>| k != bp_id && #[trigger] old(self).breakpoint_map().contains_key(k)
                    ==> final(self).breakpoint_map()[k] == old(self).breakpoint_map()[k]
                &&& info.id@ == bp_id
                &&& info.location == location
                &&& info.condition == condition
                &&& info.log_message is None
                &&& info.hit_count == 0
                &&& info.enabled
                &&& !old(self).source_map_of().contains_key(location.script_id@) ==> info.original_location is None
                &&& old(self).source_map_of().contains_key(location.script_id@) ==> {
                    let sm = old(self).source_map_of()[location.script_id@];
                    let p = Position { line: location.line_number, column: column_or_zero(location.column_number) };
                    &&& !sm.original_found(p) ==> info.original_location is None
                    &&& sm.original_found(p) ==> (info.original_location matches Some(loc)
                        && sm.original_location_at(p, loc))
                }
                &&& final(self).breakpoint_at().dom() == old(self).breakpoint_at().dom().insert(key)
                &&& final(self).breakpoint_at()[key]@ == bp_id
                &&& forall|k: Seq<char>| k != key && #[trigger] old(self).breakpoint_at().contains_key(k)
                    ==> final(self).breakpoint_at()[k] == old(self).breakpoint_at()[k]
                &&& final(self).next_breakpoint_number() == u32_wrapping_next(old(self).next_breakpoint_number())
                &&& !old(self).is_listening() ==> final(self).pending_events() == old(self).pending_events()
                &&& old(self).is_listening() ==> {
                    &&& final(self).pending_events().len() == log_room(old(self).pending_events()).len() + 1
                    &&& final(self).pending_events().drop_last() == log_room(old(self).pending_events())
                    &&& final(self).pending_events().last() matches DebugEvent::BreakpointResolved {
                        breakpoint_id,
                        location: l,
                    } && breakpoint_id@ == bp_id && l == location
                }
            }),
            final(self).spec_enabled() == old(self).spec_enabled(),
            final(self).spec_paused() == old(self).spec_paused(),
            final(self).script_map() == old(self).script_map(),
            final(self).source_map_of() == old(self).source_map_of(),
            final(self).frames() == old(self).frames(),
    {
        if !self.enabled {
            return Err(JsDebugBridgeError::NotEnabled);
        }
        let number = self.breakpoint_counter;
        self.breakpoint_counter = number.wrapping_add(1);
        let digits = decimal_string(number as u64);
        let breakpoint_id = concat_str("bp-", digits.as_str());
        let column = match location.column_number {
            Some(c) => c,
            None => 0,
        };
        let original_location = self.get_original_location(
            location.script_id.as_str(),
            location.line_number,
            column,
        );
        let info = BreakpointInfo {
            id: breakpoint_id.clone(),
            location: location.clone(),
            original_location,
            condition,
            log_message: None,
            hit_count: 0,
            enabled: true,
        };
        let key = location_key_string(location.script_id.as_str(), location.line_number, column);
        self.breakpoints.insert(breakpoint_id.clone(), info);
        self.breakpoints_by_location.insert(key, breakpoint_id.clone());
        let ghost before = self.events@;
        log_event(
            &mut self.events,
            self.listening,
            DebugEvent::BreakpointResolved { breakpoint_id: breakpoint_id.clone(), location: location.clone() },
        );
        proof {
            if self.listening {
                assert(self.events@.drop_last() =~= log_room(before));
            }
        }
        Ok((breakpoint_id, location))
    }

    /// Sets a breakpoint in the script registered under a URL.
    pub fn set_breakpoint_by_url(
        &mut self,
        url: &str,
        line_number: u32,
        column_number: Option<u32>,
        condition: Option<String>,
    ) -> (r: Result<(String, Vec<Location>), JsDebugBridgeError>)
        requires
            old(self).wf(),
        ensures
            final(self).wf(),
            !old(self).spec_enabled() ==> (r matches Err(JsDebugBridgeError::NotEnabled)
                && final(self).breakpoint_map() == old(self).breakpoint_map()),
            old(self).spec_enabled() && !old(self).script_ids_by_url().contains_key(url@) ==> (r matches Err(
                JsDebugBridgeError::ScriptNotFound(m),
            ) && m@ == url@ && final(self).breakpoint_map() == old(self).breakpoint_map()),
            old(self).spec_enabled() && old(self).script_ids_by_url().contains_key(url@) ==> (r matches Ok(
                (id, locs),
            ) && {
                let bp_id = "bp-"@ + decimal_digits(old(self).next_breakpoint_number() as nat);
                &&& id@ == bp_id
                &&& locs@.len() == 1
                &&& locs@[0].script_id == old(self).script_ids_by_url()[url@]
                &&& locs@[0].line_number == line_number
                &&& locs@[0].column_number == column_number
                &&& final(self).breakpoint_map().dom() == old(self).breakpoint_map().dom().insert(bp_id)
                &&& final(self).breakpoint_map()[bp_id].location == locs@[0]
                &&& final(self).breakpoint_map()[bp_id].condition == condition
            }),
            final(self).spec_enabled() == old(self).spec_enabled(),
            final(self).script_map() == old(self).script_map(),
            final(self).frames() == old(self).frames(),
    {
        if !self.enabled {
            return Err(JsDebugBridgeError::NotEnabled);
        }
        let script_id = match self.scripts_by_url.get(url) {
            Some(id) => id.clone(),
            None => {
                return Err(JsDebugBridgeError::ScriptNotFound(owned(url)));
            },
        };
        let location = Location { script_id, line_number, column_number };
        match self.set_breakpoint(location, condition) {
            Ok((bp_id, actual)) => {
                let mut locations: Vec<Location> = Vec::new();
                locations.push(actual);
                Ok((bp_id, locations))
            },
            Err(e) => Err(e),
        }
    }

    /// Removes a breakpoint and its location entry.
    pub fn remove_breakpoint(&mut self, breakpoint_id: &str) -> (r: Result<(), JsDebugBridgeError>)
        requires
            old(self).wf(),
        ensures
            final(self).is_listening() == old(self).is_listening(),
            final(self).wf(),
            !old(self).spec_enabled() ==> (r matches Err(JsDebugBridgeError::NotEnabled)
                && final(self).breakpoint_map() == old(self).breakpoint_map()
                && final(self).breakpoint_at() == old(self).breakpoint_at()),
            old(self).spec_enabled() && !old(self).breakpoint_map().contains_key(breakpoint_id@) ==> (r matches Err(
                JsDebugBridgeError::BreakpointNotFound(m),
            ) && m@ == breakpoint_id@ && final(self).breakpoint_map() == old(self).breakpoint_map()
                && final(self).breakpoint_at() == old(self).breakpoint_at()),
            old(self).spec_enabled() && old(self).breakpoint_map().contains_key(breakpoint_id@) ==> {
                let loc = old(self).breakpoint_map()[breakpoint_id@].location;
                &&& r is Ok
                &&& final(self).breakpoint_map() == old(self).breakpoint_map().remove(breakpoint_id@)
                &&& final(self).breakpoint_at() == old(self).breakpoint_at().remove(
                    location_key(loc.script_id@, loc.line_number, column_or_zero(loc.column_number)),
                )
            },
            final(self).spec_enabled() == old(self).spec_enabled(),
            final(self).spec_paused() == old(self).spec_paused(),
            final(self).script_map() == old(self).script_map(),
            final(self).frames() == old(self).frames(),
            final(self).pending_events() == old(self).pending_events(),
    {
        if !self.enabled {
            return Err(JsDebugBridgeError::NotEnabled);
        }
        match self.breakpoints.remove(breakpoint_id) {
            Some(info) => {
                let column = match info.location.column_number {
                    Some(c) => c,
                    None => 0,
                };
                let key = location_key_string(
                    info.location.script_id.as_str(),
                    info.location.line_number,
                    column,
                );
                let _ = self.breakpoints_by_location.remove(key.as_str());
                Ok(())
            },
            None => Err(JsDebugBridgeError::BreakpointNotFound(owned(breakpoint_id))),
        }
    }

    /// All breakpoints, in the order they were set.
    pub fn get_breakpoints(&self) -> (r: Vec<&BreakpointInfo>)
        ensures
            r@.len() == self.breakpoint_ids().len(),
            self.breakpoint_ids().len() == self.breakpoint_map().dom().len(),
            forall|k: Seq<char>| #[trigger]
                self.breakpoint_map().contains_key(k) <==> self.breakpoint_ids().contains(k),
            forall|i: int|
                0 <= i < r@.len() ==> *r@[i] == self.breakpoint_map()[#[trigger] self.breakpoint_ids()[i]],
    {
        self.breakpoints.entries_agree();
        self.breakpoints.values()
    }

    /// A breakpoint by id.
    pub fn get_breakpoint(&self, breakpoint_id: &str) -> (r: Option<&BreakpointInfo>)
        ensures
            match r {
                Some(b) => self.breakpoint_map().contains_key(breakpoint_id@) && *b
                    == self.breakpoint_map()[breakpoint_id@],
                None => !self.breakpoint_map().contains_key(breakpoint_id@),
            },
    {
        self.breakpoints.get(breakpoint_id)
    }

    /// Whether a breakpoint is set at a location.
    pub fn has_breakpoint_at(&self, script_id: &str, line: u32, column: u32) -> (b: bool)
        ensures
            b == self.breakpoint_at().contains_key(location_key(script_id@, line, column)),
    {
        let key = location_key_string(script_id, line, column);
        self.breakpoints_by_location.contains_key(key.as_str())
    }

    /// Pauses the debuggee with reason `Other` and the simulated call
    /// stack; does nothing while pauses are skipped.
    pub fn pause(&mut self) -> (r: Result<(), JsDebugBridgeError>)
        requires
            old(self).wf(),
        ensures
            final(self).is_listening() == old(self).is_listening(),
            final(self).wf(),
            !old(self).spec_enabled() ==> (r matches Err(JsDebugBridgeError::NotEnabled) && *final(self)
                == *old(self)),
            old(self).spec_enabled() && old(self).skipping() ==> (r is Ok && final(self).spec_paused()
                == old(self).spec_paused() && final(self).frames() == old(self).frames()
                && final(self).pending_events() == old(self).pending_events()),
            old(self).spec_enabled() && !old(self).skipping() ==> {
                &&& r is Ok
                &&& final(self).spec_paused()
                &&& final(self).reason() == Some(PausedReason::Other)
                &&& simulated_stack(final(self).frames(), old(self).script_seq())
                &&& !old(self).is_listening() ==> final(self).pending_events() == old(self).pending_events()
                &&& old(self).is_listening() ==> {
                    &&& final(self).pending_events().len() == log_room(old(self).pending_events()).len() + 1
                    &&& final(self).pending_events().drop_last() == log_room(old(self).pending_events())
                    &&& final(self).pending_events().last() matches DebugEvent::Paused(st) && st.reason
                        == PausedReason::Other && same_frames(st.call_frames@, final(self).frames())
                }
            },
            final(self).spec_enabled() == old(self).spec_enabled(),
            final(self).script_map() == old(self).script_map(),
            final(self).breakpoint_map() == old(self).breakpoint_map(),
            final(self).skipping() == old(self).skipping(),
    {
        if !self.enabled {
            return Err(JsDebugBridgeError::NotEnabled);
        }
        if self.skip_all_pauses {
            return Ok(());
        }
        self.paused = true;
        self.pause_reason = Some(PausedReason::Other);
        self.create_mock_call_frames();
        let state = PauseState {
            reason: PausedReason::Other,
            call_frames: clone_frames(&self.call_frames),
            hit_breakpoints: clone_strings(&self.hit_breakpoints),
            data: None,
        };
        let ghost before = self.events@;
        log_event(&mut self.events, self.listening, DebugEvent::Paused(state));
        proof {
            if self.listening {
                assert(self.events@.drop_last() =~= log_room(before));
            }
        }
        Ok(())
    }

    /// Resumes a paused debuggee, dropping its call frames.
    pub fn resume(&mut self) -> (r: Result<(), JsDebugBridgeError>)
        requires
            old(self).wf(),
        ensures
            final(self).is_listening() == old(self).is_listening(),
            final(self).wf(),
            !old(self).spec_enabled() ==> (r matches Err(JsDebugBridgeError::NotEnabled)
                && final(self).spec_paused() == old(self).spec_paused()
                && final(self).frames() == old(self).frames()
                && final(self).pending_events() == old(self).pending_events()),
            old(self).spec_enabled() && !old(self).spec_paused() ==> (r matches Err(JsDebugBridgeError::NotPaused)
                && final(self).frames() == old(self).frames()
                && final(self).pending_events() == old(self).pending_events()),
            old(self).spec_enabled() && old(self).spec_paused() ==> {
                &&& r is Ok
                &&& !final(self).spec_paused()
                &&& final(self).frames().len() == 0
                &&& final(self).reason() is None
                &&& final(self).pending_events() == event_logged(
                    old(self).pending_events(),
                    old(self).is_listening(),
                    DebugEvent::Resumed,
                )
            },
            final(self).spec_enabled() == old(self).spec_enabled(),
            final(self).script_map() == old(self).script_map(),
            final(self).breakpoint_map() == old(self).breakpoint_map(),
            final(self).skipping() == old(self).skipping(),
    {
        if !self.enabled {
            return Err(JsDebugBridgeError::NotEnabled);
        }
        if !self.paused {
            return Err(JsDebugBridgeError::NotPaused);
        }
        self.paused = false;
        self.call_frames = Vec::new();
        self.pause_reason = None;
        self.hit_breakpoints = Vec::new();
        log_event(&mut self.events, self.listening, DebugEvent::Resumed);
        Ok(())
    }

    /// Steps over the next statement (the simulated debuggee just resumes).
    pub fn step_over(&mut self) -> (r: Result<(), JsDebugBridgeError>)
        requires
            old(self).wf(),
        ensures
            final(self).wf(),
            stepped(*old(self), *final(self), r),
    {
        self.perform_step(StepAction::StepOver)
    }

    /// Steps into the next call (the simulated debuggee just resumes).
    pub fn step_into(&mut self) -> (r: Result<(), JsDebugBridgeError>)
        requires
            old(self).wf(),
        ensures
            final(self).wf(),
            stepped(*old(self), *final(self), r),
    {
        self.perform_step(StepAction::StepInto)
    }

    /// Steps out of the current function (the simulated debuggee just
    /// resumes).
    pub fn step_out(&mut self) -> (r: Result<(), JsDebugBridgeError>)
        requires
            old(self).wf(),
        ensures
            final(self).wf(),
            stepped(*old(self), *final(self), r),
    {
        self.perform_step(StepAction::StepOut)
    }

    /// Performs a step: only while enabled and paused; the debuggee resumes.
    pub fn perform_step(&mut self, action: StepAction) -> (r: Result<(), JsDebugBridgeError>)
        requires
            old(self).wf(),
        ensures
            final(self).wf(),
            stepped(*old(self), *final(self), r),
    {
        if !self.enabled {
            return Err(JsDebugBridgeError::NotEnabled);
        }
        if !self.paused {
            return Err(JsDebugBridgeError::NotPaused);
        }
        self.paused = false;
        self.call_frames = Vec::new();
        self.pause_reason = None;
        log_event(&mut self.events, self.listening, DebugEvent::Resumed);
        Ok(())
    }

    /// Sets when to pause on exceptions.
    pub fn set_pause_on_exceptions(&mut self, mode: PauseOnExceptionsMode)
        requires
            old(self).wf(),
        ensures
            final(self).is_listening() == old(self).is_listening(),
            final(self).wf(),
            final(self).exception_mode() == mode,
            final(self).spec_enabled() == old(self).spec_enabled(),
            final(self).spec_paused() == old(self).spec_paused(),
            final(self).script_map() == old(self).script_map(),
            final(self).breakpoint_map() == old(self).breakpoint_map(),
            final(self).frames() == old(self).frames(),
            final(self).skipping() == old(self).skipping(),
    {
        self.pause_on_exceptions = mode;
    }

    /// When the debugger pauses on exceptions.
    pub fn get_pause_on_exceptions(&self) -> (m: PauseOnExceptionsMode)
        ensures
            m == self.exception_mode(),
    {
        self.pause_on_exceptions
    }

    /// Sets whether pauses are skipped.
    pub fn set_skip_all_pauses(&mut self, skip: bool)
        requires
            old(self).wf(),
        ensures
            final(self).is_listening() == old(self).is_listening(),
            final(self).wf(),
            final(self).skipping() == skip,
            final(self).spec_enabled() == old(self).spec_enabled(),
            final(self).spec_paused() == old(self).spec_paused(),
            final(self).script_map() == old(self).script_map(),
            final(self).breakpoint_map() == old(self).breakpoint_map(),
            final(self).frames() == old(self).frames(),
            final(self).exception_mode() == old(self).exception_mode(),
    {
        self.skip_all_pauses = skip;
    }

    /// Sets the async stack trace depth.
    pub fn set_async_stack_trace_depth(&mut self, depth: u32)
        requires
            old(self).wf(),
        ensures
            final(self).is_listening() == old(self).is_listening(),
            final(self).wf(),
            final(self).async_depth() == depth,
            final(self).spec_enabled() == old(self).spec_enabled(),
            final(self).spec_paused() == old(self).spec_paused(),
            final(self).script_map() == old(self).script_map(),
            final(self).breakpoint_map() == old(self).breakpoint_map(),
            final(self).frames() == old(self).frames(),
            final(self).skipping() == old(self).skipping(),
    {
        self.async_stack_trace_depth = depth;
    }

    /// The current call frames.
    pub fn get_call_frames(&self) -> (r: &[CallFrame])
        ensures
            r@ == self.frames(),
    {
        self.call_frames.as_slice()
    }

    /// The first current call frame with this id.
    pub fn get_call_frame(&self, call_frame_id: &str) -> (r: Option<&CallFrame>)
        ensures
            match first_frame_with_id(self.frames(), call_frame_id@) {
                Some(i) => r matches Some(f) && *f == self.frames()[i],
                None => r is None,
            },
    {
        proof {
            lemma_first_frame_bound(self.frames(), call_frame_id@);
        }
        let found = find_frame(&self.call_frames, call_frame_id);
        match found {
            Some(i) => {
                let f = &self.call_frames[i];
                assert(*f == self.frames()[i as int]);
                Some(f)
            },
            None => None,
        }
    }

    /// Replaces the call frames with the simulated stack: `main` at line 10,
    /// column 5 with local, closure and global scopes, called from an
    /// anonymous frame at line 1, column 0; both in the first registered
    /// script, or in `script-1` at `file:///test.js` when there is none.
    fn create_mock_call_frames(&mut self)
        requires
            old(self).wf(),
        ensures
            final(self).wf(),
            simulated_stack(final(self).frames(), old(self).script_seq()),
            final(self).spec_enabled() == old(self).spec_enabled(),
            final(self).spec_paused() == old(self).spec_paused(),
            final(self).reason() == old(self).reason(),
            final(self).script_map() == old(self).script_map(),
            final(self).script_seq() == old(self).script_seq(),
            final(self).breakpoint_map() == old(self).breakpoint_map(),
            final(self).pending_events() == old(self).pending_events(),
            final(self).is_listening() == old(self).is_listening(),
            final(self).skipping() == old(self).skipping(),
    {
        self.scripts.entries_agree();
        let (script_id, url) = if self.scripts.len() > 0 {
            let first = self.scripts.value_at(0);
            (first.script_id.clone(), first.url.clone())
        } else {
            (owned("script-1"), owned("file:///test.js"))
        };
        let mut frames: Vec<CallFrame> = Vec::new();
        let mut scopes: Vec<Scope> = Vec::new();
        scopes.push(mock_scope(ScopeType::Local, "Local"));
        scopes.push(mock_scope(ScopeType::Closure, "Closure"));
        scopes.push(mock_scope(ScopeType::Global, "Global"));
        frames.push(
            CallFrame {
                call_frame_id: fresh_id("frame-"),
                function_name: owned("main"),
                location: Location {
                    script_id: script_id.clone(),
                    line_number: 10,
                    column_number: Some(5),
                },
                url: url.clone(),
                scope_chain: scopes,
                this: create_mock_remote_object("this"),
                return_value: None,
            },
        );
        let mut outer_scopes: Vec<Scope> = Vec::new();
        outer_scopes.push(mock_scope(ScopeType::Global, "Global"));
        frames.push(
            CallFrame {
                call_frame_id: fresh_id("frame-"),
                function_name: owned("<anonymous>"),
                location: Location { script_id, line_number: 1, column_number: Some(0) },
                url,
                scope_chain: outer_scopes,
                this: create_mock_remote_object("global"),
                return_value: None,
            },
        );
        proof {
            reveal_strlit("frame-");
        }
        self.call_frames = frames;
    }

    /// Evaluates an expression on a current call frame.
    pub fn evaluate_on_call_frame(
        &self,
        call_frame_id: &str,
        expression: &str,
        include_command_line_api: bool,
    ) -> (r: Result<RemoteObject, JsDebugBridgeError>)
        ensures
            !self.spec_enabled() ==> r matches Err(JsDebugBridgeError::NotEnabled),
            self.spec_enabled() && !self.spec_paused() ==> r matches Err(JsDebugBridgeError::NotPaused),
            self.spec_enabled() && self.spec_paused() && first_frame_with_id(self.frames(), call_frame_id@) is None
                ==> (r matches Err(JsDebugBridgeError::CallFrameNotFound(m)) && m@ == call_frame_id@),
            self.spec_enabled() && self.spec_paused() && first_frame_with_id(self.frames(), call_frame_id@) is Some
                ==> (r matches Ok(obj) && evaluated(expression@, obj)),
    {
        if !self.enabled {
            return Err(JsDebugBridgeError::NotEnabled);
        }
        if !self.paused {
            return Err(JsDebugBridgeError::NotPaused);
        }
        if find_frame(&self.call_frames, call_frame_id).is_none() {
            return Err(JsDebugBridgeError::CallFrameNotFound(owned(call_frame_id)));
        }
        Ok(mock_evaluate(expression))
    }

    /// Evaluates an expression globally.
    pub fn evaluate(&self, expression: &str) -> (r: Result<RemoteObject, JsDebugBridgeError>)
        ensures
            !self.spec_enabled() ==> r matches Err(JsDebugBridgeError::NotEnabled),
            self.spec_enabled() ==> (r matches Ok(obj) && evaluated(expression@, obj)),
    {
        if !self.enabled {
            return Err(JsDebugBridgeError::NotEnabled);
        }
        Ok(mock_evaluate(expression))
    }

    /// The variables of a scope (the simulated scope holds `x = 42`,
    /// `name = "test"` and an object `arr`).
    pub fn get_scope_variables(&self, scope_object_id: &str) -> (r: Result<Vec<PropertyInfo>, JsDebugBridgeError>)
        ensures
            !self.spec_enabled() ==> r matches Err(JsDebugBridgeError::NotEnabled),
            self.spec_enabled() ==> (r matches Ok(props) && {
                &&& props@.len() == 3
                &&& props@[0].name@ == "x"@ && props@[0].value.object_type == RemoteObjectType::Number
                    && props@[0].value.value == Some(JsValue::Number(42))
                &&& props@[1].name@ == "name"@ && props@[1].value.object_type == RemoteObjectType::String
                &&& props@[1].value.value matches Some(JsValue::Str(t)) && t@ == "test"@
                &&& props@[2].name@ == "arr"@ && props@[2].value.object_type == RemoteObjectType::Object
                    && props@[2].value.value is None && props@[2].value.object_id is Some
                &&& forall|i: int| 0 <= i < 3 ==> (#[trigger] props@[i]).writable && props@[i].configurable
                    && props@[i].enumerable
            }),
    {
        if !self.enabled {
            return Err(JsDebugBridgeError::NotEnabled);
        }
        let mut props: Vec<PropertyInfo> = Vec::new();
        props.push(
            PropertyInfo {
                name: owned("x"),
                value: create_mock_remote_object_value("number", Some(JsValue::Number(42))),
                writable: true,
                configurable: true,
                enumerable: true,
            },
        );
        props.push(
            PropertyInfo {
                name: owned("name"),
                value: create_mock_remote_object_value("string", Some(JsValue::Str(owned("test")))),
                writable: true,
                configurable: true,
                enumerable: true,
            },
        );
        props.push(
            PropertyInfo {
                name: owned("arr"),
                value: create_mock_remote_object_value("object", None),
                writable: true,
                configurable: true,
                enumerable: true,
            },
        );
        proof {
            reveal_strlit("number");
            reveal_strlit("string");
            reveal_strlit("object");
            reveal_strlit("boolean");
            reveal_strlit("undefined");
            reveal_strlit("x");
            reveal_strlit("name");
            reveal_strlit("arr");
            reveal_strlit("test");
        }
        assert("string"@[0] != "number"@[0]);
        assert("object"@[0] != "number"@[0] && "object"@[0] != "string"@[0]);
        assert("object"@.len() != "boolean"@.len() && "object"@.len() != "undefined"@.len());
        Ok(props)
    }

    /// Restarts a call frame (the simulated debuggee keeps its frames).
    pub fn restart_frame(&self, call_frame_id: &str) -> (r: Result<Vec<CallFrame>, JsDebugBridgeError>)
        ensures
            !self.spec_enabled() ==> r matches Err(JsDebugBridgeError::NotEnabled),
            self.spec_enabled() && !self.spec_paused() ==> r matches Err(JsDebugBridgeError::NotPaused),
            self.spec_enabled() && self.spec_paused() && first_frame_with_id(self.frames(), call_frame_id@) is None
                ==> (r matches Err(JsDebugBridgeError::CallFrameNotFound(m)) && m@ == call_frame_id@),
            self.spec_enabled() && self.spec_paused() && first_frame_with_id(self.frames(), call_frame_id@) is Some
                ==> (r matches Ok(frames) && same_frames(frames@, self.frames())),
    {
        if !self.enabled {
            return Err(JsDebugBridgeError::NotEnabled);
        }
        if !self.paused {
            return Err(JsDebugBridgeError::NotPaused);
        }
        if find_frame(&self.call_frames, call_frame_id).is_none() {
            return Err(JsDebugBridgeError::CallFrameNotFound(owned(call_frame_id)));
        }
        Ok(clone_frames(&self.call_frames))
    }
}

/// The methods of the debugger domain.
#[derive(Debug, Clone, Copy, PartialEq, Eq, Structural)]
pub enum JsDebugMethod {
    Enable,
    Disable,
    Pause,
    Resume,
    StepOver,
    StepInto,
    StepOut,
    SetBreakpoint,
    SetBreakpointByUrl,
    RemoveBreakpoint,
    GetScriptSource,
    EvaluateOnCallFrame,
    SetPauseOnExceptions,
    SetSkipAllPauses,
    SetAsyncCallStackDepth,
}

/// The method a protocol name stands for.
pub open spec fn method_named(name: Seq<char>) -> Option<JsDebugMethod> {
    if name == "enable"@ {
        Some(JsDebugMethod::Enable)
    } else if name == "disable"@ {
        Some(JsDebugMethod::Disable)
    } else if name == "pause"@ {
        Some(JsDebugMethod::Pause)
    } else if name == "resume"@ {
        Some(JsDebugMethod::Resume)
    } else if name == "stepOver"@ {
        Some(JsDebugMethod::StepOver)
    } else if name == "stepInto"@ {
        Some(JsDebugMethod::StepInto)
    } else if name == "stepOut"@ {
        Some(JsDebugMethod::StepOut)
    } else if name == "setBreakpoint"@ {
        Some(JsDebugMethod::SetBreakpoint)
    } else if name == "setBreakpointByUrl"@ {
        Some(JsDebugMethod::SetBreakpointByUrl)
    } else if name == "removeBreakpoint"@ {
        Some(JsDebugMethod::RemoveBreakpoint)
    } else if name == "getScriptSource"@ {
        Some(JsDebugMethod::GetScriptSource)
    } else if name == "evaluateOnCallFrame"@ {
        Some(JsDebugMethod::EvaluateOnCallFrame)
    } else if name == "setPauseOnExceptions"@ {
        Some(JsDebugMethod::SetPauseOnExceptions)
    } else if name == "setSkipAllPauses"@ {
        Some(JsDebugMethod::SetSkipAllPauses)
    } else if name == "setAsyncCallStackDepth"@ {
        Some(JsDebugMethod::SetAsyncCallStackDepth)
    } else {
        None
    }
}

impl JsDebugMethod {
    /// The method of a protocol name, if the domain has one by that name.
    pub fn from_name(name: &str) -> (m: Option<JsDebugMethod>)
        ensures
            m == method_named(name@),
    {
        if str_eq(name, "enable") {
            Some(JsDebugMethod::Enable)
        } else if str_eq(name, "disable") {
            Some(JsDebugMethod::Disable)
        } else if str_eq(name, "pause") {
            Some(JsDebugMethod::Pause)
        } else if str_eq(name, "resume") {
            Some(JsDebugMethod::Resume)
        } else if str_eq(name, "stepOver") {
            Some(JsDebugMethod::StepOver)
        } else if str_eq(name, "stepInto") {
            Some(JsDebugMethod::StepInto)
        } else if str_eq(name, "stepOut") {
            Some(JsDebugMethod::StepOut)
        } else if str_eq(name, "setBreakpoint") {
            Some(JsDebugMethod::SetBreakpoint)
        } else if str_eq(name, "setBreakpointByUrl") {
            Some(JsDebugMethod::SetBreakpointByUrl)
        } else if str_eq(name, "removeBreakpoint") {
            Some(JsDebugMethod::RemoveBreakpoint)
        } else if str_eq(name, "getScriptSource") {
            Some(JsDebugMethod::GetScriptSource)
        } else if str_eq(name, "evaluateOnCallFrame") {
            Some(JsDebugMethod::EvaluateOnCallFrame)
        } else if str_eq(name, "setPauseOnExceptions") {
            Some(JsDebugMethod::SetPauseOnExceptions)
        } else if str_eq(name, "setSkipAllPauses") {
            Some(JsDebugMethod::SetSkipAllPauses)
        } else if str_eq(name, "setAsyncCallStackDepth") {
            Some(JsDebugMethod::SetAsyncCallStackDepth)
        } else {
            None
        }
    }
}

/// The exception mode a protocol state names: `none`, `uncaught` or `all`.
pub open spec fn exception_mode_named(state: Seq<char>) -> Option<PauseOnExceptionsMode> {
    if state == "none"@ {
        Some(PauseOnExceptionsMode::Never)
    } else if state == "uncaught"@ {
        Some(PauseOnExceptionsMode::Uncaught)
    } else if state == "all"@ {
        Some(PauseOnExceptionsMode::All)
    } else {
        None
    }
}

/// Reads the `state` of `setPauseOnExceptions`; any other text is refused
/// as invalid parameters.
pub fn parse_pause_on_exceptions(state: &str) -> (r: Result<PauseOnExceptionsMode, ProtocolError>)
    ensures
        exception_mode_named(state@) matches Some(m) ==> r == Ok::<PauseOnExceptionsMode, ProtocolError>(m),
        exception_mode_named(state@) is None ==> (r matches Err(ProtocolError::InvalidParams(m)) && m@
            == "Invalid state: "@ + state@),
{
    if str_eq(state, "none") {
        Ok(PauseOnExceptionsMode::Never)
    } else if str_eq(state, "uncaught") {
        Ok(PauseOnExceptionsMode::Uncaught)
    } else if str_eq(state, "all") {
        Ok(PauseOnExceptionsMode::All)
    } else {
        Err(ProtocolError::InvalidParams(concat_str("Invalid state: ", state)))
    }
}

/// The debugger's event log never holds more than a hundred events: past
/// that, the oldest gives way to the newest.
pub proof fn event_log_is_bounded(b: &JsDebugBridge)
    requires
        b.wf(),
    ensures
        b.pending_events().len() <= EVENT_LOG_CAPACITY,
{
}

/// A sum evaluates to its value: `21 + 21`, with any whitespace around it,
/// gives the Number 42 — the same object as the literal `42` gives.
pub proof fn sum_evaluates_to_its_value(pre: Seq<char>, post: Seq<char>, r: RemoteObject, q: RemoteObject)
    requires
        forall|a: int| 0 <= a < pre.len() ==> crate::text::is_white_space(#[trigger] pre[a]),
        forall|a: int| 0 <= a < post.len() ==> crate::text::is_white_space(#[trigger] post[a]),
        evaluated(pre + "21 + 21"@ + post, r),
        evaluated("42"@, q),
    ensures
        r.object_type == RemoteObjectType::Number,
        r.value == Some(JsValue::Number(42)),
        r.unserializable_value is None,
        r.description matches Some(d) && d@ == "42"@,
        q.object_type == r.object_type,
        q.value == r.value,
        q.unserializable_value is None,
        q.description matches Some(d) && d@ == "42"@,
{
    reveal_strlit("21 + 21");
    reveal_strlit("42");
    crate::text::lemma_trimmed_padded(pre, "21 + 21"@, post);
    crate::text::lemma_trimmed_padded(Seq::empty(), "42"@, Seq::empty());
    assert(Seq::<char>::empty() + "42"@ + Seq::<char>::empty() =~= "42"@);
}

} // verus!
