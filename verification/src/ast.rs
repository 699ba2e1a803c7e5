//! The Aether abstract syntax: safety levels, types, guest languages,
//! halt actions and operators.

use vstd::prelude::*;
use crate::text::{all_ascii, ascii_lower, str_eq, to_lowercase, unicode_lower};
use crate::json::{FloatRepr, JNum, JVal, JsonNumber, JsonValue, clone_float, json_parses, parses_as_json};
use crate::text::chars_of;

verus! {

/// The five safety tiers, from pure computation to system root.
#[derive(Debug, Clone, Copy, PartialEq, Eq, Structural, PartialOrd, Ord)]
pub enum SafetyLevel {
    L0Pure,
    L1ReadOnly,
    L2StateMod,
    L3NetEgress,
    L4SystemRoot,
}

/// The tier number of a safety level (0 for L0 up to 4 for L4); the order of
/// safety levels is the order of their tier numbers.
pub open spec fn safety_rank(l: SafetyLevel) -> nat {
    match l {
        SafetyLevel::L0Pure => 0,
        SafetyLevel::L1ReadOnly => 1,
        SafetyLevel::L2StateMod => 2,
        SafetyLevel::L3NetEgress => 3,
        SafetyLevel::L4SystemRoot => 4,
    }
}

/// The safety level named by an already lower-cased tag.
pub open spec fn safety_from_tag(t: Seq<char>) -> Option<SafetyLevel> {
    if t == "pure"@ || t == "l0"@ {
        Some(SafetyLevel::L0Pure)
    } else if t == "read_only"@ || t == "l1"@ {
        Some(SafetyLevel::L1ReadOnly)
    } else if t == "state_mod"@ || t == "l2"@ {
        Some(SafetyLevel::L2StateMod)
    } else if t == "net_egress"@ || t == "full_egress"@ || t == "l3"@ {
        Some(SafetyLevel::L3NetEgress)
    } else if t == "system_root"@ || t == "l4"@ {
        Some(SafetyLevel::L4SystemRoot)
    } else {
        None
    }
}

pub open spec fn safety_label(l: SafetyLevel) -> Seq<char> {
    match l {
        SafetyLevel::L0Pure => "L0 (Pure)"@,
        SafetyLevel::L1ReadOnly => "L1 (Read-Only)"@,
        SafetyLevel::L2StateMod => "L2 (State-Mod)"@,
        SafetyLevel::L3NetEgress => "L3 (Net-Egress)"@,
        SafetyLevel::L4SystemRoot => "L4 (System-Root)"@,
    }
}

/// The canonical short tag ("l0".."l4") of a safety level.
pub open spec fn safety_short(l: SafetyLevel) -> Seq<char> {
    match l {
        SafetyLevel::L0Pure => "l0"@,
        SafetyLevel::L1ReadOnly => "l1"@,
        SafetyLevel::L2StateMod => "l2"@,
        SafetyLevel::L3NetEgress => "l3"@,
        SafetyLevel::L4SystemRoot => "l4"@,
    }
}

impl SafetyLevel {
    /// Parses a safety tag case-insensitively: "pure"/"l0", "read_only"/"l1",
    /// "state_mod"/"l2", "net_egress"/"full_egress"/"l3", "system_root"/"l4".
    pub fn from_str(s: &str) -> (r: Option<SafetyLevel>)
        ensures
            r == safety_from_tag(unicode_lower(s@)),
            all_ascii(s@) ==> r == safety_from_tag(ascii_lower(s@)),
    {
        let lower = to_lowercase(s);
        let t = lower.as_str();
        if str_eq(t, "pure") || str_eq(t, "l0") {
            Some(SafetyLevel::L0Pure)
        } else if str_eq(t, "read_only") || str_eq(t, "l1") {
            Some(SafetyLevel::L1ReadOnly)
        } else if str_eq(t, "state_mod") || str_eq(t, "l2") {
            Some(SafetyLevel::L2StateMod)
        } else if str_eq(t, "net_egress") || str_eq(t, "full_egress") || str_eq(t, "l3") {
            Some(SafetyLevel::L3NetEgress)
        } else if str_eq(t, "system_root") || str_eq(t, "l4") {
            Some(SafetyLevel::L4SystemRoot)
        } else {
            None
        }
    }

    /// Human-readable label, e.g. "L2 (State-Mod)".
    pub fn label(&self) -> (r: &'static str)
        ensures
            r@ == safety_label(*self),
    {
        match self {
            SafetyLevel::L0Pure => "L0 (Pure)",
            SafetyLevel::L1ReadOnly => "L1 (Read-Only)",
            SafetyLevel::L2StateMod => "L2 (State-Mod)",
            SafetyLevel::L3NetEgress => "L3 (Net-Egress)",
            SafetyLevel::L4SystemRoot => "L4 (System-Root)",
        }
    }

    /// Network egress and system root need explicit approval.
    pub fn requires_approval(&self) -> (r: bool)
        ensures
            r == (safety_rank(*self) >= 3),
    {
        match self {
            SafetyLevel::L3NetEgress | SafetyLevel::L4SystemRoot => true,
            _ => false,
        }
    }

    /// The tier number (0..=4).
    pub fn rank(&self) -> (r: u8)
        ensures
            r == safety_rank(*self),
    {
        match self {
            SafetyLevel::L0Pure => 0,
            SafetyLevel::L1ReadOnly => 1,
            SafetyLevel::L2StateMod => 2,
            SafetyLevel::L3NetEgress => 3,
            SafetyLevel::L4SystemRoot => 4,
        }
    }

    /// `self > other` in the tier order.
    pub fn exceeds(&self, other: &SafetyLevel) -> (r: bool)
        ensures
            r == (safety_rank(*self) > safety_rank(*other)),
    {
        self.rank() > other.rank()
    }

    /// The canonical short tag ("l0".."l4").
    pub fn short_tag(&self) -> (r: &'static str)
        ensures
            r@ == safety_short(*self),
    {
        match self {
            SafetyLevel::L0Pure => "l0",
            SafetyLevel::L1ReadOnly => "l1",
            SafetyLevel::L2StateMod => "l2",
            SafetyLevel::L3NetEgress => "l3",
            SafetyLevel::L4SystemRoot => "l4",
        }
    }
}


/// All Aether types.
#[derive(Debug, Clone, Copy, PartialEq, Eq, Structural)]
pub enum AetherType {
    Bool,
    Int,
    Float,
    String,
    JSON,
    JSONString,
    JSONObject,
    Blob,
    Tensor,
    Ref,
    MapType,
    List,
    Table,
}

pub open spec fn aether_type_from_name(s: Seq<char>) -> Option<AetherType> {
    if s == "Bool"@ {
        Some(AetherType::Bool)
    } else if s == "Int"@ {
        Some(AetherType::Int)
    } else if s == "Float"@ {
        Some(AetherType::Float)
    } else if s == "String"@ {
        Some(AetherType::String)
    } else if s == "JSON"@ {
        Some(AetherType::JSON)
    } else if s == "JSON_String"@ {
        Some(AetherType::JSONString)
    } else if s == "JSON_Object"@ {
        Some(AetherType::JSONObject)
    } else if s == "Blob"@ {
        Some(AetherType::Blob)
    } else if s == "Tensor"@ {
        Some(AetherType::Tensor)
    } else if s == "Ref"@ {
        Some(AetherType::Ref)
    } else if s == "Map"@ {
        Some(AetherType::MapType)
    } else if s == "List"@ {
        Some(AetherType::List)
    } else if s == "Table"@ {
        Some(AetherType::Table)
    } else {
        None
    }
}

/// Whether a value has the shape a declared type asks for.
/// A character of the standard Base64 alphabet.
pub open spec fn b64_char(c: char) -> bool {
    ('A' <= c && c <= 'Z') || ('a' <= c && c <= 'z') || ('0' <= c && c <= '9') || c == '+' || c == '/'
}

/// The number of `=` padding characters at the end (at most two).
pub open spec fn b64_padding(s: Seq<char>) -> int {
    if s.len() >= 2 && s[s.len() - 1] == '=' && s[s.len() - 2] == '=' {
        2
    } else if s.len() >= 1 && s[s.len() - 1] == '=' {
        1
    } else {
        0
    }
}

/// Standard Base64 text: a multiple of four characters of the alphabet,
/// ending in at most two `=`.
pub open spec fn is_base64(s: Seq<char>) -> bool {
    &&& s.len() % 4 == 0
    &&& forall|i: int| 0 <= i < s.len() - b64_padding(s) ==> b64_char(#[trigger] s[i])
}

fn b64_char_exec(c: char) -> (r: bool)
    ensures
        r == b64_char(c),
{
    ('A' <= c && c <= 'Z') || ('a' <= c && c <= 'z') || ('0' <= c && c <= '9') || c == '+' || c == '/'
}

/// Whether a text is standard Base64.
pub fn base64_ok(s: &str) -> (r: bool)
    ensures
        r == is_base64(s@),
{
    let cs = chars_of(s);
    let n = cs.len();
    if n % 4 != 0 {
        return false;
    }
    let pad: usize = if n >= 2 && cs[n - 1] == '=' && cs[n - 2] == '=' {
        2
    } else if n >= 1 && cs[n - 1] == '=' {
        1
    } else {
        0
    };
    assert(pad as int == b64_padding(cs@));
    let mut i: usize = 0;
    while i < n - pad
        invariant
            n == cs@.len(),
            cs@ == s@,
            pad <= n,
            pad as int == b64_padding(cs@),
            0 <= i <= n - pad,
            forall|j: int| 0 <= j < i ==> b64_char(#[trigger] cs@[j]),
        decreases n - pad - i,
    {
        if !b64_char_exec(cs[i]) {
            assert(!b64_char(cs@[i as int]) && (i as int) < cs@.len() - b64_padding(cs@));
            return false;
        }
        i = i + 1;
    }
    true
}

pub open spec fn type_accepts(t: AetherType, v: JVal) -> bool {
    match t {
        AetherType::Bool => v is Bool,
        AetherType::Int => v matches JVal::Num(n) && (n is PosInt || n is NegInt),
        AetherType::Float => v matches JVal::Num(n) && n is Float,
        AetherType::String => v is Str,
        AetherType::JSONString => v matches JVal::Str(t) && json_parses(t),
        AetherType::JSON => v is Obj || v is Arr || v is Str || v is Num || v is Bool,
        AetherType::JSONObject | AetherType::MapType => v is Obj,
        AetherType::List => v is Arr,
        AetherType::Blob => v matches JVal::Str(t) && is_base64(t),
        AetherType::Tensor => v is Arr,
        AetherType::Ref => v is Str,
        AetherType::Table => v is Arr || v is Obj,
    }
}

/// The name that `{:?}` prints for a type.
pub open spec fn aether_type_debug(t: AetherType) -> Seq<char> {
    match t {
        AetherType::Bool => "Bool"@,
        AetherType::Int => "Int"@,
        AetherType::Float => "Float"@,
        AetherType::String => "String"@,
        AetherType::JSON => "JSON"@,
        AetherType::JSONString => "JSONString"@,
        AetherType::JSONObject => "JSONObject"@,
        AetherType::Blob => "Blob"@,
        AetherType::Tensor => "Tensor"@,
        AetherType::Ref => "Ref"@,
        AetherType::MapType => "Map"@,
        AetherType::List => "List"@,
        AetherType::Table => "Table"@,
    }
}

impl AetherType {
    /// Parses a type name as written in `Type<...>` (case-sensitive).
    pub fn from_str(s: &str) -> (r: Option<AetherType>)
        ensures
            r == aether_type_from_name(s@),
    {
        if str_eq(s, "Bool") {
            Some(AetherType::Bool)
        } else if str_eq(s, "Int") {
            Some(AetherType::Int)
        } else if str_eq(s, "Float") {
            Some(AetherType::Float)
        } else if str_eq(s, "String") {
            Some(AetherType::String)
        } else if str_eq(s, "JSON") {
            Some(AetherType::JSON)
        } else if str_eq(s, "JSON_String") {
            Some(AetherType::JSONString)
        } else if str_eq(s, "JSON_Object") {
            Some(AetherType::JSONObject)
        } else if str_eq(s, "Blob") {
            Some(AetherType::Blob)
        } else if str_eq(s, "Tensor") {
            Some(AetherType::Tensor)
        } else if str_eq(s, "Ref") {
            Some(AetherType::Ref)
        } else if str_eq(s, "Map") {
            Some(AetherType::MapType)
        } else if str_eq(s, "List") {
            Some(AetherType::List)
        } else if str_eq(s, "Table") {
            Some(AetherType::Table)
        } else {
            None
        }
    }

    /// Validates that a value matches this type.
    pub fn validate(&self, val: &JsonValue) -> (r: bool)
        ensures
            r == type_accepts(*self, val@),
    {
        match self {
            AetherType::Bool => matches!(val, JsonValue::Bool(_)),
            AetherType::Int => matches!(val, JsonValue::Number(JsonNumber::PosInt(_)))
                || matches!(val, JsonValue::Number(JsonNumber::NegInt(_))),
            AetherType::Float => matches!(val, JsonValue::Number(JsonNumber::Float(_))),
            AetherType::String => matches!(val, JsonValue::String(_)),
            AetherType::JSONString => match val {
                JsonValue::String(t) => parses_as_json(t.as_str()),
                _ => false,
            },
            AetherType::JSON => !matches!(val, JsonValue::Null),
            AetherType::JSONObject | AetherType::MapType => matches!(val, JsonValue::Object(_)),
            AetherType::List => matches!(val, JsonValue::Array(_)),
            AetherType::Blob => match val {
                JsonValue::String(t) => base64_ok(t.as_str()),
                _ => false,
            },
            AetherType::Tensor => matches!(val, JsonValue::Array(_)),
            AetherType::Ref => matches!(val, JsonValue::String(_)),
            AetherType::Table => matches!(val, JsonValue::Array(_)) || matches!(
                val,
                JsonValue::Object(_)
            ),
        }
    }

    /// The name that `{:?}` prints for this type.
    pub fn debug_name(&self) -> (r: &'static str)
        ensures
            r@ == aether_type_debug(*self),
    {
        match self {
            AetherType::Bool => "Bool",
            AetherType::Int => "Int",
            AetherType::Float => "Float",
            AetherType::String => "String",
            AetherType::JSON => "JSON",
            AetherType::JSONString => "JSONString",
            AetherType::JSONObject => "JSONObject",
            AetherType::Blob => "Blob",
            AetherType::Tensor => "Tensor",
            AetherType::Ref => "Ref",
            AetherType::MapType => "Map",
            AetherType::List => "List",
            AetherType::Table => "Table",
        }
    }
}

/// Guest language of an EXEC block.
#[derive(Debug, Clone, Copy, PartialEq, Eq, Structural)]
pub enum GuestLang {
    Python,
    JS,
    Rust,
    SQL,
    Shell,
    Text,
    TextGen,
    Wasm,
}

pub open spec fn guest_lang_from_name(s: Seq<char>) -> Option<GuestLang> {
    if s == "PYTHON"@ {
        Some(GuestLang::Python)
    } else if s == "JS"@ {
        Some(GuestLang::JS)
    } else if s == "RUST"@ {
        Some(GuestLang::Rust)
    } else if s == "SQL"@ {
        Some(GuestLang::SQL)
    } else if s == "SHELL"@ {
        Some(GuestLang::Shell)
    } else if s == "TEXT"@ {
        Some(GuestLang::Text)
    } else if s == "TEXT_GEN"@ {
        Some(GuestLang::TextGen)
    } else if s == "WASM"@ {
        Some(GuestLang::Wasm)
    } else {
        None
    }
}

impl GuestLang {
    /// Parses an upper-case language tag as written in `::EXEC<...>`.
    pub fn from_str(s: &str) -> (r: Option<GuestLang>)
        ensures
            r == guest_lang_from_name(s@),
    {
        if str_eq(s, "PYTHON") {
            Some(GuestLang::Python)
        } else if str_eq(s, "JS") {
            Some(GuestLang::JS)
        } else if str_eq(s, "RUST") {
            Some(GuestLang::Rust)
        } else if str_eq(s, "SQL") {
            Some(GuestLang::SQL)
        } else if str_eq(s, "SHELL") {
            Some(GuestLang::Shell)
        } else if str_eq(s, "TEXT") {
            Some(GuestLang::Text)
        } else if str_eq(s, "TEXT_GEN") {
            Some(GuestLang::TextGen)
        } else if str_eq(s, "WASM") {
            Some(GuestLang::Wasm)
        } else {
            None
        }
    }
}

/// What a failed assertion does.
#[derive(Debug, Clone, Copy, PartialEq, Eq, Structural)]
pub enum HaltAction {
    Halt,
    /// Retry with an optional maximum number of attempts.
    Retry(Option<u32>),
    Warn,
}

#[derive(Debug, Clone, Copy, PartialEq, Eq, Structural)]
pub enum BinOperator {
    Eq,
    Ne,
    Gt,
    Lt,
    Ge,
    Le,
    Add,
    Sub,
    Mul,
    Div,
    Mod,
    And,
    Or,
}

#[derive(Debug, Clone, Copy, PartialEq, Eq, Structural)]
pub enum UnaryOperator {
    Not,
    Neg,
}

/// Expression syntax of VALIDATE and CONDITION blocks.
#[derive(Debug)]
pub enum Expr {
    Null,
    Bool(bool),
    Int(i64),
    Float(FloatRepr),
    Str(String),
    /// A ledger address such as `$0xRAW`.
    Address(String),
    /// A bare name.
    Identifier(String),
    BinOp { left: Box<Expr>, op: BinOperator, right: Box<Expr> },
    UnaryOp { op: UnaryOperator, expr: Box<Expr> },
    Index { object: Box<Expr>, key: Box<Expr> },
    DotAccess { object: Box<Expr>, field: String },
    FuncCall { name: String, args: Vec<Expr> },
}

/// Literal values of the surface language.
#[derive(Debug)]
pub enum AetherValue {
    Null,
    Bool(bool),
    Int(i64),
    Float(FloatRepr),
    String(String),
    Json(JsonValue),
}

/// Whether the double with these bits is finite (its exponent is not all ones).
pub open spec fn float_finite(bits: u64) -> bool {
    (bits as nat / 0x10_0000_0000_0000nat) % 2048 != 2047
}

pub open spec fn int_json(i: i64) -> JVal {
    if i < 0 {
        JVal::Num(JNum::NegInt(i))
    } else {
        JVal::Num(JNum::PosInt(i as u64))
    }
}

/// `json!(f)` for a double: a float number when finite, null otherwise.
pub open spec fn float_json(f: FloatRepr) -> JVal {
    if float_finite(f.bits) {
        JVal::Num(JNum::Float(f.bits, f.text@))
    } else {
        JVal::Null
    }
}

pub open spec fn value_json(v: AetherValue) -> JVal {
    match v {
        AetherValue::Null => JVal::Null,
        AetherValue::Bool(b) => JVal::Bool(b),
        AetherValue::Int(i) => int_json(i),
        AetherValue::Float(f) => float_json(f),
        AetherValue::String(s) => JVal::Str(s@),
        AetherValue::Json(j) => j@,
    }
}

pub fn int_to_json(i: i64) -> (r: JsonValue)
    ensures
        r@ == int_json(i),
{
    if i < 0 {
        JsonValue::Number(JsonNumber::NegInt(i))
    } else {
        JsonValue::Number(JsonNumber::PosInt(i as u64))
    }
}

pub fn float_to_json(f: &FloatRepr) -> (r: JsonValue)
    ensures
        r@ == float_json(*f),
{
    if (f.bits / 0x10_0000_0000_0000u64) % 2048 != 2047 {
        JsonValue::Number(JsonNumber::Float(clone_float(f)))
    } else {
        JsonValue::Null
    }
}

impl AetherValue {
    /// The JSON value of a literal.
    pub fn to_json(&self) -> (r: JsonValue)
        ensures
            r@ == value_json(*self),
    {
        match self {
            AetherValue::Null => JsonValue::Null,
            AetherValue::Bool(b) => JsonValue::Bool(*b),
            AetherValue::Int(i) => int_to_json(*i),
            AetherValue::Float(f) => float_to_json(f),
            AetherValue::String(s) => JsonValue::String(crate::text::owned(s.as_str())),
            AetherValue::Json(v) => crate::json::clone_json(v),
        }
    }

    /// The string of a string literal.
    pub fn as_str(&self) -> (r: Option<&str>)
        ensures
            match *self {
                AetherValue::String(s) => r is Some && r->0@ == s@,
                _ => r is None,
            },
    {
        match self {
            AetherValue::String(s) => Some(s.as_str()),
            _ => None,
        }
    }
}

/// Input binding: an address bound to a reference or a literal.
#[derive(Debug)]
pub struct InputBinding {
    pub address: String,
    pub alias: Option<String>,
    pub source: InputSource,
}

#[derive(Debug)]
pub enum InputSource {
    /// `Ref($0xOther)`
    Ref(String),
    Literal(AetherValue),
}

/// Output binding: an address with its declared type.
#[derive(Debug)]
pub struct OutputBinding {
    pub address: String,
    pub declared_type: AetherType,
}

/// An assertion of a VALIDATE block.
#[derive(Debug)]
pub struct Assertion {
    pub condition: Expr,
    pub on_fail: HaltAction,
}

#[derive(Debug)]
pub struct MetaBlock {
    pub intent: Option<String>,
    pub safety: Option<SafetyLevel>,
    /// Other META pairs, keys distinct.
    pub extra: Vec<(String, AetherValue)>,
}

/// The core execution unit.
#[derive(Debug)]
pub struct ActionNode {
    pub id: String,
    pub meta: Option<MetaBlock>,
    pub inputs: Option<Vec<InputBinding>>,
    pub condition: Option<Expr>,
    pub language: GuestLang,
    pub code: String,
    pub outputs: Option<Vec<OutputBinding>>,
    pub validation: Option<Vec<Assertion>>,
    /// Computed at parse time: the ids of the nodes this node depends on, one
    /// for each `Ref(...)` binding whose address a node of the same root
    /// declares in its `::OUT` block (the last such node).
    pub depends_on: Vec<String>,
}

/// Global or scoped context: key-value pairs (keys distinct).
#[derive(Debug)]
pub struct ContextBlock {
    pub id: Option<String>,
    pub data: Vec<(String, AetherValue)>,
}

#[derive(Debug)]
pub struct ParallelBlock {
    pub id: Option<String>,
    pub nodes: Vec<ActionNode>,
}

/// Agent-to-agent request.
#[derive(Debug)]
pub struct RequestBlock {
    pub id: String,
    pub sender: Option<String>,
    pub target: Option<String>,
    pub context: Option<Vec<(String, AetherValue)>>,
    pub instructions: Option<String>,
    pub data: Vec<(String, AetherValue)>,
}

/// Failure handler.
#[derive(Debug)]
pub struct FailureBlock {
    pub id: String,
    pub data: Vec<(String, AetherValue)>,
}

#[derive(Debug)]
pub enum Block {
    Context(ContextBlock),
    Action(ActionNode),
    Request(RequestBlock),
    Failure(FailureBlock),
    Parallel(ParallelBlock),
}

/// A ROOT block: an id and its blocks in order.
#[derive(Debug)]
pub struct RootBlock {
    pub id: String,
    pub blocks: Vec<Block>,
}

/// A program: one or more ROOT blocks.
#[derive(Debug)]
pub struct AetherProgram {
    pub roots: Vec<RootBlock>,
}

} // verus!
