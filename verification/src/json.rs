//! A model of JSON values as the kernel's ledger holds them: numbers keep
//! serde_json's three kinds (non-negative integer, negative integer, float),
//! and object members are kept in ascending key order, as serde_json's
//! default map keeps them.

use vstd::prelude::*;
use crate::text::{chars_of, str_eq, string_of, owned};

verus! {

/// A finite double, held by its IEEE-754 bits together with its JSON text
/// (the shortest round-trip decimal form that serde_json prints for it).
#[derive(Debug)]
pub struct FloatRepr {
    pub bits: u64,
    pub text: String,
}

#[derive(Debug)]
pub enum JsonNumber {
    /// A non-negative integer.
    PosInt(u64),
    /// A negative integer.
    NegInt(i64),
    /// A finite double.
    Float(FloatRepr),
}

#[derive(Debug)]
pub enum JsonValue {
    Null,
    Bool(bool),
    Number(JsonNumber),
    String(String),
    Array(Vec<JsonValue>),
    /// Members in ascending key order, keys distinct.
    Object(Vec<(String, JsonValue)>),
}

/// Mathematical view of a JSON number.
pub enum JNum {
    PosInt(u64),
    NegInt(i64),
    /// Bits and JSON text of a finite double.
    Float(u64, Seq<char>),
}

/// Mathematical view of a JSON value.
pub enum JVal {
    Null,
    Bool(bool),
    Num(JNum),
    Str(Seq<char>),
    Arr(Seq<JVal>),
    Obj(Seq<(Seq<char>, JVal)>),
}

pub open spec fn num_view(n: JsonNumber) -> JNum {
    match n {
        JsonNumber::PosInt(u) => JNum::PosInt(u),
        JsonNumber::NegInt(i) => JNum::NegInt(i),
        JsonNumber::Float(f) => JNum::Float(f.bits, f.text@),
    }
}

pub open spec fn jview(v: JsonValue) -> JVal
    decreases v, 1nat,
{
    match v {
        JsonValue::Null => JVal::Null,
        JsonValue::Bool(b) => JVal::Bool(b),
        JsonValue::Number(n) => JVal::Num(num_view(n)),
        JsonValue::String(s) => JVal::Str(s@),
        JsonValue::Array(a) => JVal::Arr(jviews(a@)),
        JsonValue::Object(o) => JVal::Obj(mviews(o@)),
    }
}

pub open spec fn jviews(s: Seq<JsonValue>) -> Seq<JVal>
    decreases s, 0nat,
{
    if s.len() == 0 {
        Seq::empty()
    } else {
        jviews(s.subrange(0, s.len() - 1)).push(jview(s[s.len() - 1]))
    }
}

pub open spec fn mviews(s: Seq<(String, JsonValue)>) -> Seq<(Seq<char>, JVal)>
    decreases s, 0nat,
{
    if s.len() == 0 {
        Seq::empty()
    } else {
        mviews(s.subrange(0, s.len() - 1)).push((s[s.len() - 1].0@, jview(s[s.len() - 1].1)))
    }
}

impl View for JsonNumber {
    type V = JNum;

    open spec fn view(&self) -> JNum {
        num_view(*self)
    }
}

impl View for JsonValue {
    type V = JVal;

    open spec fn view(&self) -> JVal {
        jview(*self)
    }
}

pub proof fn lemma_jviews(s: Seq<JsonValue>)
    ensures
        jviews(s).len() == s.len(),
        forall|i: int| 0 <= i < s.len() ==> #[trigger] jviews(s)[i] == jview(s[i]),
    decreases s.len(),
{
    if s.len() > 0 {
        lemma_jviews(s.subrange(0, s.len() - 1));
    }
}

pub proof fn lemma_mviews(s: Seq<(String, JsonValue)>)
    ensures
        mviews(s).len() == s.len(),
        forall|i: int|
            0 <= i < s.len() ==> #[trigger] mviews(s)[i] == (s[i].0@, jview(s[i].1)),
    decreases s.len(),
{
    if s.len() > 0 {
        lemma_mviews(s.subrange(0, s.len() - 1));
    }
}

/// Whether the double with these bits is +0.0 or -0.0.
pub open spec fn float_is_zero(bits: u64) -> bool {
    bits == 0 || bits == 0x8000_0000_0000_0000u64
}

/// Equality of two numbers as serde_json compares them: same kind and
/// same value (for doubles, IEEE equality, under which +0.0 equals -0.0).
pub open spec fn num_eq(a: JNum, b: JNum) -> bool {
    match (a, b) {
        (JNum::PosInt(x), JNum::PosInt(y)) => x == y,
        (JNum::NegInt(x), JNum::NegInt(y)) => x == y,
        (JNum::Float(x, _), JNum::Float(y, _)) => x == y || (float_is_zero(x) && float_is_zero(
            y,
        )),
        _ => false,
    }
}

/// Equality of JSON values (`serde_json::Value == serde_json::Value`).
pub open spec fn json_eq(a: JVal, b: JVal) -> bool
    decreases a,
{
    match a {
        JVal::Null => b is Null,
        JVal::Bool(x) => b matches JVal::Bool(y) && x == y,
        JVal::Num(x) => b matches JVal::Num(y) && num_eq(x, y),
        JVal::Str(x) => b matches JVal::Str(y) && x == y,
        JVal::Arr(xs) => match b {
            JVal::Arr(ys) => xs.len() == ys.len() && forall|i: int|
                0 <= i < xs.len() ==> json_eq(#[trigger] xs[i], ys[i]),
            _ => false,
        },
        JVal::Obj(xs) => match b {
            JVal::Obj(ys) => xs.len() == ys.len() && forall|i: int|
                0 <= i < xs.len() ==> (#[trigger] xs[i]).0 == ys[i].0 && json_eq(xs[i].1, ys[i].1),
            _ => false,
        },
    }
}

/// Truthiness as the evaluator uses it: null and false are false; a number is
/// true iff it is non-zero; a string, array or object iff it is non-empty.
pub open spec fn truthy(v: JVal) -> bool {
    match v {
        JVal::Null => false,
        JVal::Bool(b) => b,
        JVal::Num(n) => match n {
            JNum::PosInt(u) => u != 0,
            JNum::NegInt(_) => true,
            JNum::Float(bits, _) => !float_is_zero(bits),
        },
        JVal::Str(s) => s.len() > 0,
        JVal::Arr(a) => a.len() > 0,
        JVal::Obj(o) => o.len() > 0,
    }
}

pub fn is_truthy(v: &JsonValue) -> (r: bool)
    ensures
        r == truthy(v@),
{
    proof {
        match v {
            JsonValue::Array(a) => lemma_jviews(a@),
            JsonValue::Object(o) => lemma_mviews(o@),
            _ => {},
        }
    }
    match v {
        JsonValue::Null => false,
        JsonValue::Bool(b) => *b,
        JsonValue::Number(n) => match n {
            JsonNumber::PosInt(u) => *u != 0,
            JsonNumber::NegInt(_) => true,
            JsonNumber::Float(f) => !(f.bits == 0 || f.bits == 0x8000_0000_0000_0000u64),
        },
        JsonValue::String(s) => !s.as_str().is_empty(),
        JsonValue::Array(a) => a.len() > 0,
        JsonValue::Object(o) => o.len() > 0,
    }
}

fn num_equal(a: &JsonNumber, b: &JsonNumber) -> (r: bool)
    ensures
        r == num_eq(a@, b@),
{
    match (a, b) {
        (JsonNumber::PosInt(x), JsonNumber::PosInt(y)) => *x == *y,
        (JsonNumber::NegInt(x), JsonNumber::NegInt(y)) => *x == *y,
        (JsonNumber::Float(x), JsonNumber::Float(y)) => x.bits == y.bits || ((x.bits == 0
            || x.bits == 0x8000_0000_0000_0000u64) && (y.bits == 0 || y.bits
            == 0x8000_0000_0000_0000u64)),
        _ => false,
    }
}

pub fn string_equal(a: &String, b: &String) -> (r: bool)
    ensures
        r == (a@ == b@),
{
    str_eq(a.as_str(), b.as_str())
}

/// Equality of JSON values, as `serde_json::Value`'s `==`.
pub fn json_equal(a: &JsonValue, b: &JsonValue) -> (r: bool)
    ensures
        r == json_eq(a@, b@),
    decreases a,
{
    match a {
        JsonValue::Null => match b {
            JsonValue::Null => true,
            _ => false,
        },
        JsonValue::Bool(x) => match b {
            JsonValue::Bool(y) => *x == *y,
            _ => false,
        },
        JsonValue::Number(x) => match b {
            JsonValue::Number(y) => num_equal(x, y),
            _ => false,
        },
        JsonValue::String(x) => match b {
            JsonValue::String(y) => string_equal(x, y),
            _ => false,
        },
        JsonValue::Array(xs) => match b {
            JsonValue::Array(ys) => {
                proof {
                    lemma_jviews(xs@);
                    lemma_jviews(ys@);
                }
                if xs.len() != ys.len() {
                    return false;
                }
                let mut i: usize = 0;
                while i < xs.len()
                    invariant
                        0 <= i <= xs@.len(),
                        xs@.len() == ys@.len(),
                        *a == JsonValue::Array(*xs),
                        *b == JsonValue::Array(*ys),
                        jviews(xs@).len() == xs@.len(),
                        jviews(ys@).len() == ys@.len(),
                        forall|k: int| 0 <= k < xs@.len() ==> #[trigger] jviews(xs@)[k] == jview(xs@[k]),
                        forall|k: int| 0 <= k < ys@.len() ==> #[trigger] jviews(ys@)[k] == jview(ys@[k]),
                        forall|j: int| 0 <= j < i ==> json_eq(#[trigger] jviews(xs@)[j], jviews(ys@)[j]),
                    decreases xs@.len() - i,
                {
                    proof {
                        let ghost av = *a;
                        assert(decreases_to!(av => av->Array_0));
                        assert(decreases_to!(av->Array_0 => av->Array_0@));
                        assert(decreases_to!(av->Array_0@ => av->Array_0@[i as int]));
                    }
                    if !json_equal(&xs[i], &ys[i]) {
                        assert(!json_eq(jviews(xs@)[i as int], jviews(ys@)[i as int]));
                        return false;
                    }
                    assert(json_eq(jviews(xs@)[i as int], jviews(ys@)[i as int]));
                    i = i + 1;
                }
                true
            },
            _ => false,
        },
        JsonValue::Object(xs) => match b {
            JsonValue::Object(ys) => {
                proof {
                    lemma_mviews(xs@);
                    lemma_mviews(ys@);
                }
                if xs.len() != ys.len() {
                    return false;
                }
                let mut i: usize = 0;
                while i < xs.len()
                    invariant
                        0 <= i <= xs@.len(),
                        xs@.len() == ys@.len(),
                        *a == JsonValue::Object(*xs),
                        *b == JsonValue::Object(*ys),
                        mviews(xs@).len() == xs@.len(),
                        mviews(ys@).len() == ys@.len(),
                        forall|k: int| 0 <= k < xs@.len() ==> #[trigger] mviews(xs@)[k] == (xs@[k].0@, jview(xs@[k].1)),
                        forall|k: int| 0 <= k < ys@.len() ==> #[trigger] mviews(ys@)[k] == (ys@[k].0@, jview(ys@[k].1)),
                        forall|j: int|
                            0 <= j < i ==> (#[trigger] mviews(xs@)[j]).0 == mviews(ys@)[j].0
                                && json_eq(mviews(xs@)[j].1, mviews(ys@)[j].1),
                    decreases xs@.len() - i,
                {
                    proof {
                        let ghost av = *a;
                        assert(decreases_to!(av => av->Object_0));
                        assert(decreases_to!(av->Object_0 => av->Object_0@));
                        assert(decreases_to!(av->Object_0@ => av->Object_0@[i as int]));
                        assert(decreases_to!(av->Object_0@[i as int] => av->Object_0@[i as int].1));
                    }
                    let ghost mx = mviews(xs@)[i as int];
                    let ghost my = mviews(ys@)[i as int];
                    if !string_equal(&xs[i].0, &ys[i].0) {
                        assert(mx.0 != my.0);
                        return false;
                    }
                    if !json_equal(&xs[i].1, &ys[i].1) {
                        assert(!json_eq(mx.1, my.1));
                        return false;
                    }
                    assert(mx.0 == my.0 && json_eq(mx.1, my.1));
                    i = i + 1;
                }
                true
            },
            _ => false,
        },
    }
}

// ---------------------------------------------------------------------------
// Copies
// ---------------------------------------------------------------------------

pub fn clone_float(f: &FloatRepr) -> (r: FloatRepr)
    ensures
        r.bits == f.bits,
        r.text@ == f.text@,
{
    FloatRepr { bits: f.bits, text: owned(f.text.as_str()) }
}

pub fn clone_number(n: &JsonNumber) -> (r: JsonNumber)
    ensures
        r@ == n@,
{
    match n {
        JsonNumber::PosInt(u) => JsonNumber::PosInt(*u),
        JsonNumber::NegInt(i) => JsonNumber::NegInt(*i),
        JsonNumber::Float(f) => JsonNumber::Float(clone_float(f)),
    }
}

proof fn lemma_jviews_ext(s1: Seq<JsonValue>, s2: Seq<JsonValue>)
    requires
        s1.len() == s2.len(),
        forall|i: int| 0 <= i < s1.len() ==> jview(#[trigger] s1[i]) == jview(s2[i]),
    ensures
        jviews(s1) == jviews(s2),
{
    lemma_jviews(s1);
    lemma_jviews(s2);
    assert(jviews(s1) =~= jviews(s2)) by {
        assert forall|i: int| 0 <= i < s1.len() implies jviews(s1)[i] == jviews(s2)[i] by {
            assert(jview(s1[i]) == jview(s2[i]));
        }
    }
}

proof fn lemma_mviews_ext(s1: Seq<(String, JsonValue)>, s2: Seq<(String, JsonValue)>)
    requires
        s1.len() == s2.len(),
        forall|i: int|
            0 <= i < s1.len() ==> (#[trigger] s1[i]).0@ == s2[i].0@ && jview(s1[i].1) == jview(
                s2[i].1,
            ),
    ensures
        mviews(s1) == mviews(s2),
{
    lemma_mviews(s1);
    lemma_mviews(s2);
    assert(mviews(s1) =~= mviews(s2)) by {
        assert forall|i: int| 0 <= i < s1.len() implies mviews(s1)[i] == mviews(s2)[i] by {
            assert(s1[i].0@ == s2[i].0@);
        }
    }
}

/// A deep copy of a value.
pub fn clone_json(v: &JsonValue) -> (r: JsonValue)
    ensures
        r@ == v@,
    decreases v,
{
    match v {
        JsonValue::Null => JsonValue::Null,
        JsonValue::Bool(b) => JsonValue::Bool(*b),
        JsonValue::Number(n) => JsonValue::Number(clone_number(n)),
        JsonValue::String(s) => JsonValue::String(owned(s.as_str())),
        JsonValue::Array(a) => {
            let mut res: Vec<JsonValue> = Vec::new();
            let mut i: usize = 0;
            while i < a.len()
                invariant
                    0 <= i <= a@.len(),
                    *v == JsonValue::Array(*a),
                    res@.len() == i,
                    forall|j: int| 0 <= j < i ==> jview(#[trigger] res@[j]) == jview(a@[j]),
                decreases a@.len() - i,
            {
                proof {
                    let ghost vv = *v;
                    assert(decreases_to!(vv => vv->Array_0));
                    assert(decreases_to!(vv->Array_0 => vv->Array_0@));
                    assert(decreases_to!(vv->Array_0@ => vv->Array_0@[i as int]));
                }
                let c = clone_json(&a[i]);
                res.push(c);
                i = i + 1;
            }
            proof {
                lemma_jviews_ext(res@, a@);
            }
            JsonValue::Array(res)
        },
        JsonValue::Object(o) => {
            let mut res: Vec<(String, JsonValue)> = Vec::new();
            let mut i: usize = 0;
            while i < o.len()
                invariant
                    0 <= i <= o@.len(),
                    *v == JsonValue::Object(*o),
                    res@.len() == i,
                    forall|j: int|
                        0 <= j < i ==> (#[trigger] res@[j]).0@ == o@[j].0@ && jview(res@[j].1)
                            == jview(o@[j].1),
                decreases o@.len() - i,
            {
                proof {
                    let ghost vv = *v;
                    assert(decreases_to!(vv => vv->Object_0));
                    assert(decreases_to!(vv->Object_0 => vv->Object_0@));
                    assert(decreases_to!(vv->Object_0@ => vv->Object_0@[i as int]));
                    assert(decreases_to!(vv->Object_0@[i as int] => vv->Object_0@[i as int].1));
                }
                let k = owned(o[i].0.as_str());
                let c = clone_json(&o[i].1);
                res.push((k, c));
                i = i + 1;
            }
            proof {
                lemma_mviews_ext(res@, o@);
            }
            JsonValue::Object(res)
        },
    }
}

// ---------------------------------------------------------------------------
// JSON text (compact form, as serde_json writes it)
// ---------------------------------------------------------------------------

pub open spec fn hex_digit(n: nat) -> char {
    if n < 10 {
        ('0' as u32 + n) as char
    } else {
        ('a' as u32 + (n - 10)) as char
    }
}

/// The escape that serde_json writes for one character of a string.
pub open spec fn escape_char(c: char) -> Seq<char> {
    if c == '"' {
        seq!['\\', '"']
    } else if c == '\\' {
        seq!['\\', '\\']
    } else if c == '\u{8}' {
        seq!['\\', 'b']
    } else if c == '\u{c}' {
        seq!['\\', 'f']
    } else if c == '\n' {
        seq!['\\', 'n']
    } else if c == '\r' {
        seq!['\\', 'r']
    } else if c == '\t' {
        seq!['\\', 't']
    } else if (c as u32) < 0x20 {
        seq!['\\', 'u', '0', '0', hex_digit((c as u32 / 16) as nat), hex_digit((c as u32 % 16) as nat)]
    } else {
        seq![c]
    }
}

pub open spec fn escaped(s: Seq<char>) -> Seq<char>
    decreases s.len(),
{
    if s.len() == 0 {
        Seq::empty()
    } else {
        escaped(s.drop_last()) + escape_char(s.last())
    }
}

/// A string as a JSON string literal.
pub open spec fn quoted(s: Seq<char>) -> Seq<char> {
    seq!['"'] + escaped(s) + seq!['"']
}

pub open spec fn digit_char(d: nat) -> char {
    ('0' as u32 + d) as char
}

/// The decimal digits of a natural number.
pub open spec fn decimal(n: nat) -> Seq<char>
    decreases n,
{
    if n < 10 {
        seq![digit_char(n)]
    } else {
        decimal(n / 10).push(digit_char(n % 10))
    }
}

pub open spec fn number_text(n: JNum) -> Seq<char> {
    match n {
        JNum::PosInt(u) => decimal(u as nat),
        JNum::NegInt(i) => seq!['-'] + decimal(if i < 0 { (-i) as nat } else { i as nat }),
        JNum::Float(_, t) => t,
    }
}

/// The compact JSON text of a value.
pub open spec fn json_text(v: JVal) -> Seq<char>
    decreases v, 0nat,
{
    match v {
        JVal::Null => "null"@,
        JVal::Bool(b) => if b { "true"@ } else { "false"@ },
        JVal::Num(n) => number_text(n),
        JVal::Str(s) => quoted(s),
        JVal::Arr(a) => seq!['['] + items_text(a) + seq![']'],
        JVal::Obj(o) => seq!['{'] + members_text(o) + seq!['}'],
    }
}

/// Comma-separated texts of array items.
pub open spec fn items_text(s: Seq<JVal>) -> Seq<char>
    decreases s, s.len(),
{
    if s.len() == 0 {
        Seq::empty()
    } else if s.len() == 1 {
        json_text(s[0])
    } else {
        items_text(s.subrange(0, s.len() - 1)) + seq![','] + json_text(s[s.len() - 1])
    }
}

pub open spec fn member_text(m: (Seq<char>, JVal)) -> Seq<char>
    decreases m, 0nat,
{
    quoted(m.0) + seq![':'] + json_text(m.1)
}

/// Comma-separated `"key":value` texts of object members.
pub open spec fn members_text(s: Seq<(Seq<char>, JVal)>) -> Seq<char>
    decreases s, s.len(),
{
    if s.len() == 0 {
        Seq::empty()
    } else if s.len() == 1 {
        member_text(s[0])
    } else {
        members_text(s.subrange(0, s.len() - 1)) + seq![','] + member_text(s[s.len() - 1])
    }
}

/// Appends the characters of a string slice.
pub fn push_chars(out: &mut Vec<char>, s: &str)
    ensures
        final(out)@ == old(out)@ + s@,
{
    let cs = chars_of(s);
    let mut i: usize = 0;
    while i < cs.len()
        invariant
            0 <= i <= cs@.len(),
            cs@ == s@,
            out@ == old(out)@ + cs@.subrange(0, i as int),
        decreases cs@.len() - i,
    {
        out.push(cs[i]);
        i = i + 1;
        assert(cs@.subrange(0, i as int) == cs@.subrange(0, i - 1) + seq![cs@[i - 1]]);
    }
    assert(cs@.subrange(0, cs@.len() as int) == cs@);
}

/// Appends a sequence of characters.
pub fn push_all(out: &mut Vec<char>, cs: &Vec<char>)
    ensures
        final(out)@ == old(out)@ + cs@,
{
    let mut i: usize = 0;
    while i < cs.len()
        invariant
            0 <= i <= cs@.len(),
            out@ == old(out)@ + cs@.subrange(0, i as int),
        decreases cs@.len() - i,
    {
        out.push(cs[i]);
        i = i + 1;
        assert(cs@.subrange(0, i as int) == cs@.subrange(0, i - 1) + seq![cs@[i - 1]]);
    }
    assert(cs@.subrange(0, cs@.len() as int) == cs@);
}

fn hex_char(n: u32) -> (c: char)
    requires
        n < 16,
    ensures
        c == hex_digit(n as nat),
{
    if n < 10 {
        char_from_code('0' as u32 + n)
    } else {
        char_from_code('a' as u32 + (n - 10))
    }
}

/// Whether a text parses as JSON with serde_json (`serde_json::from_str`
/// into a `serde_json::Value` succeeds).
pub uninterp spec fn json_parses(text: Seq<char>) -> bool;

/// `serde_json::from_str::<serde_json::Value>`, success or not: named
/// `json_parses`, a function of the text alone.
#[verifier::external_body]
pub(crate) fn parses_as_json(text: &str) -> (r: bool)
    ensures
        r == json_parses(text@),
{
    serde_json::from_str::<serde_json::Value>(text).is_ok()
}

/// The character of an ASCII code.
pub(crate) fn char_from_code(n: u32) -> (c: char)
    requires
        n < 128,
    ensures
        c == n as char,
{
    (n as u8) as char
}

fn push_escaped_char(out: &mut Vec<char>, c: char)
    ensures
        final(out)@ == old(out)@ + escape_char(c),
{
    if c == '"' {
        out.push('\\');
        out.push('"');
    } else if c == '\\' {
        out.push('\\');
        out.push('\\');
    } else if c == '\u{8}' {
        out.push('\\');
        out.push('b');
    } else if c == '\u{c}' {
        out.push('\\');
        out.push('f');
    } else if c == '\n' {
        out.push('\\');
        out.push('n');
    } else if c == '\r' {
        out.push('\\');
        out.push('r');
    } else if c == '\t' {
        out.push('\\');
        out.push('t');
    } else if (c as u32) < 0x20 {
        out.push('\\');
        out.push('u');
        out.push('0');
        out.push('0');
        out.push(hex_char(c as u32 / 16));
        out.push(hex_char(c as u32 % 16));
    } else {
        out.push(c);
    }
    assert(final(out)@ == old(out)@ + escape_char(c));
}

/// Appends a string as a JSON string literal.
pub fn push_quoted(out: &mut Vec<char>, s: &str)
    ensures
        final(out)@ == old(out)@ + quoted(s@),
{
    let cs = chars_of(s);
    let ghost start = out@;
    out.push('"');
    let mut i: usize = 0;
    while i < cs.len()
        invariant
            0 <= i <= cs@.len(),
            cs@ == s@,
            out@ == start + seq!['"'] + escaped(cs@.subrange(0, i as int)),
        decreases cs@.len() - i,
    {
        push_escaped_char(out, cs[i]);
        i = i + 1;
        assert(cs@.subrange(0, i as int).drop_last() == cs@.subrange(0, i - 1));
    }
    assert(cs@.subrange(0, cs@.len() as int) == cs@);
    out.push('"');
}

pub fn push_decimal(out: &mut Vec<char>, n: u64)
    ensures
        final(out)@ == old(out)@ + decimal(n as nat),
    decreases n,
{
    if n < 10 {
        out.push(char_from_code('0' as u32 + n as u32));
    } else {
        push_decimal(out, n / 10);
        out.push(char_from_code('0' as u32 + (n % 10) as u32));
    }
}

pub fn push_number(out: &mut Vec<char>, n: &JsonNumber)
    ensures
        final(out)@ == old(out)@ + number_text(n@),
{
    match n {
        JsonNumber::PosInt(u) => push_decimal(out, *u),
        JsonNumber::NegInt(i) => {
            out.push('-');
            let mag: u64 = if *i == i64::MIN {
                0x8000_0000_0000_0000u64
            } else if *i < 0 {
                (-*i) as u64
            } else {
                *i as u64
            };
            push_decimal(out, mag);
        },
        JsonNumber::Float(f) => push_chars(out, f.text.as_str()),
    }
}

/// Appends the compact JSON text of a value.
pub fn push_json(out: &mut Vec<char>, v: &JsonValue)
    ensures
        final(out)@ == old(out)@ + json_text(v@),
    decreases v,
{
    match v {
        JsonValue::Null => push_chars(out, "null"),
        JsonValue::Bool(b) => if *b {
            push_chars(out, "true")
        } else {
            push_chars(out, "false")
        },
        JsonValue::Number(n) => push_number(out, n),
        JsonValue::String(s) => push_quoted(out, s.as_str()),
        JsonValue::Array(a) => {
            let ghost start = out@;
            proof {
                lemma_jviews(a@);
            }
            out.push('[');
            let mut i: usize = 0;
            while i < a.len()
                invariant
                    0 <= i <= a@.len(),
                    *v == JsonValue::Array(*a),
                    jviews(a@).len() == a@.len(),
                    forall|k: int| 0 <= k < a@.len() ==> #[trigger] jviews(a@)[k] == jview(a@[k]),
                    out@ == start + seq!['['] + items_text(jviews(a@).subrange(0, i as int)),
                decreases a@.len() - i,
            {
                proof {
                    let ghost vv = *v;
                    assert(decreases_to!(vv => vv->Array_0));
                    assert(decreases_to!(vv->Array_0 => vv->Array_0@));
                    assert(decreases_to!(vv->Array_0@ => vv->Array_0@[i as int]));
                }
                if i > 0 {
                    out.push(',');
                }
                push_json(out, &a[i]);
                let ghost p = jviews(a@).subrange(0, i + 1);
                assert(p.subrange(0, p.len() - 1) == jviews(a@).subrange(0, i as int));
                assert(p[p.len() - 1] == jview(a@[i as int]));
                i = i + 1;
            }
            assert(jviews(a@).subrange(0, a@.len() as int) == jviews(a@));
            out.push(']');
        },
        JsonValue::Object(o) => {
            let ghost start = out@;
            proof {
                lemma_mviews(o@);
            }
            out.push('{');
            let mut i: usize = 0;
            while i < o.len()
                invariant
                    0 <= i <= o@.len(),
                    *v == JsonValue::Object(*o),
                    mviews(o@).len() == o@.len(),
                    forall|k: int| 0 <= k < o@.len() ==> #[trigger] mviews(o@)[k] == (o@[k].0@, jview(o@[k].1)),
                    out@ == start + seq!['{'] + members_text(mviews(o@).subrange(0, i as int)),
                decreases o@.len() - i,
            {
                proof {
                    let ghost vv = *v;
                    assert(decreases_to!(vv => vv->Object_0));
                    assert(decreases_to!(vv->Object_0 => vv->Object_0@));
                    assert(decreases_to!(vv->Object_0@ => vv->Object_0@[i as int]));
                    assert(decreases_to!(vv->Object_0@[i as int] => vv->Object_0@[i as int].1));
                }
                if i > 0 {
                    out.push(',');
                }
                let ghost before = out@;
                push_quoted(out, o[i].0.as_str());
                out.push(':');
                push_json(out, &o[i].1);
                assert(out@ == before + member_text(mviews(o@)[i as int]));
                let ghost p = mviews(o@).subrange(0, i + 1);
                assert(p.subrange(0, p.len() - 1) == mviews(o@).subrange(0, i as int));
                i = i + 1;
            }
            assert(mviews(o@).subrange(0, o@.len() as int) == mviews(o@));
            out.push('}');
        },
    }
}

/// The compact JSON text of a value (`serde_json::Value`'s `Display`).
pub fn to_json_text(v: &JsonValue) -> (r: String)
    ensures
        r@ == json_text(v@),
{
    let mut out: Vec<char> = Vec::new();
    push_json(&mut out, v);
    assert(out@ == json_text(v@));
    string_of(out.as_slice())
}


// ---------------------------------------------------------------------------
// Ordered object members
// ---------------------------------------------------------------------------

/// String order: lexicographic by character code (the byte order of UTF-8).
pub open spec fn str_lt(a: Seq<char>, b: Seq<char>) -> bool
    decreases a.len(),
{
    if a.len() == 0 {
        b.len() > 0
    } else if b.len() == 0 {
        false
    } else if a[0] != b[0] {
        (a[0] as u32) < (b[0] as u32)
    } else {
        str_lt(a.drop_first(), b.drop_first())
    }
}

/// Whether `a` sorts before `b`.
pub fn str_less(a: &str, b: &str) -> (r: bool)
    ensures
        r == str_lt(a@, b@),
{
    let av = chars_of(a);
    let bv = chars_of(b);
    let mut i: usize = 0;
    assert(av@.subrange(0, av@.len() as int) == av@);
    assert(bv@.subrange(0, bv@.len() as int) == bv@);
    while i < av.len() && i < bv.len() && av[i] == bv[i]
        invariant
            0 <= i <= av@.len(),
            i <= bv@.len(),
            av@ == a@,
            bv@ == b@,
            str_lt(a@, b@) == str_lt(av@.subrange(i as int, av@.len() as int), bv@.subrange(i as int, bv@.len() as int)),
        decreases av@.len() - i,
    {
        let ghost x = av@.subrange(i as int, av@.len() as int);
        let ghost y = bv@.subrange(i as int, bv@.len() as int);
        assert(x.drop_first() == av@.subrange(i + 1, av@.len() as int));
        assert(y.drop_first() == bv@.subrange(i + 1, bv@.len() as int));
        i = i + 1;
    }
    let ghost x = av@.subrange(i as int, av@.len() as int);
    let ghost y = bv@.subrange(i as int, bv@.len() as int);
    if i == av.len() {
        i < bv.len()
    } else if i == bv.len() {
        false
    } else {
        assert(x[0] == av@[i as int] && y[0] == bv@[i as int]);
        (av[i] as u32) < (bv[i] as u32)
    }
}

/// Object members after `map.insert(k, v)`: the member with key `k` replaced,
/// or a new member placed in key order.
pub open spec fn member_insert(ms: Seq<(Seq<char>, JVal)>, k: Seq<char>, v: JVal) -> Seq<(Seq<char>, JVal)>
    decreases ms.len(),
{
    if ms.len() == 0 {
        seq![(k, v)]
    } else if ms[0].0 == k {
        seq![(k, v)] + ms.drop_first()
    } else if str_lt(k, ms[0].0) {
        seq![(k, v)] + ms
    } else {
        seq![ms[0]] + member_insert(ms.drop_first(), k, v)
    }
}

proof fn lemma_member_insert_at(ms: Seq<(Seq<char>, JVal)>, k: Seq<char>, v: JVal, i: int)
    requires
        0 <= i <= ms.len(),
        forall|j: int| 0 <= j < i ==> ms[j].0 != k && !str_lt(k, ms[j].0),
    ensures
        member_insert(ms, k, v) == ms.subrange(0, i) + member_insert(ms.subrange(i, ms.len() as int), k, v),
    decreases i,
{
    if i > 0 {
        let t = ms.drop_first();
        assert forall|j: int| 0 <= j < i - 1 implies t[j].0 != k && !str_lt(k, t[j].0) by {
            assert(t[j] == ms[j + 1]);
        }
        lemma_member_insert_at(t, k, v, i - 1);
        assert(t.subrange(0, i - 1) == ms.subrange(1, i));
        assert(t.subrange(i - 1, t.len() as int) == ms.subrange(i, ms.len() as int));
        assert(seq![ms[0]] + ms.subrange(1, i) == ms.subrange(0, i));
        assert(member_insert(ms, k, v) == seq![ms[0]] + member_insert(t, k, v));
        assert(seq![ms[0]] + (ms.subrange(1, i) + member_insert(ms.subrange(i, ms.len() as int), k, v))
            == (seq![ms[0]] + ms.subrange(1, i)) + member_insert(ms.subrange(i, ms.len() as int), k, v));
    } else {
        assert(ms.subrange(0, 0) + member_insert(ms, k, v) == member_insert(ms, k, v));
        assert(ms.subrange(0, ms.len() as int) == ms);
    }
}

/// Inserts a member into an object's members (`serde_json::Map::insert`).
pub fn members_insert(ms: &mut Vec<(String, JsonValue)>, k: String, v: JsonValue)
    ensures
        mviews(final(ms)@) == member_insert(mviews(old(ms)@), k@, v@),
{
    proof {
        lemma_mviews(ms@);
    }
    let ghost mv = mviews(ms@);
    let ghost kv = k@;
    let ghost vv = v@;
    let mut i: usize = 0;
    while i < ms.len() && !str_eq(ms[i].0.as_str(), k.as_str()) && !str_less(k.as_str(), ms[i].0.as_str())
        invariant
            0 <= i <= ms@.len(),
            mv == mviews(ms@),
            mv.len() == ms@.len(),
            kv == k@,
            forall|j: int| 0 <= j < ms@.len() ==> #[trigger] mv[j] == (ms@[j].0@, jview(ms@[j].1)),
            forall|j: int| 0 <= j < i ==> mv[j].0 != k@ && !str_lt(k@, mv[j].0),
        decreases ms@.len() - i,
    {
        i = i + 1;
    }
    proof {
        lemma_member_insert_at(mv, k@, v@, i as int);
    }
    let ghost old_ms = ms@;
    if i < ms.len() && str_eq(ms[i].0.as_str(), k.as_str()) {
        ms.set(i, (k, v));
        proof {
            lemma_mviews(ms@);
            let rest = mv.subrange(i as int, mv.len() as int);
            assert(rest[0] == mv[i as int]);
            assert(rest.drop_first() == mv.subrange(i + 1, mv.len() as int));
            assert(mviews(ms@) =~= mv.subrange(0, i as int) + (seq![(kv, vv)] + mv.subrange(i + 1, mv.len() as int))) by {
                assert forall|j: int| 0 <= j < ms@.len() implies mviews(ms@)[j] == (mv.subrange(0, i as int) + (seq![(kv, vv)] + mv.subrange(i + 1, mv.len() as int)))[j] by {
                    if j != i {
                        assert(ms@[j] == old_ms[j]);
                    }
                }
            }
        }
    } else {
        ms.insert(i, (k, v));
        proof {
            lemma_mviews(ms@);
            let rest = mv.subrange(i as int, mv.len() as int);
            if i < mv.len() {
                assert(rest[0] == mv[i as int]);
            }
            assert(mviews(ms@) =~= mv.subrange(0, i as int) + (seq![(kv, vv)] + rest)) by {
                assert forall|j: int| 0 <= j < ms@.len() implies mviews(ms@)[j] == (mv.subrange(0, i as int) + (seq![(kv, vv)] + rest))[j] by {
                    if j < i {
                        assert(ms@[j] == old_ms[j]);
                    } else if j > i {
                        assert(ms@[j] == old_ms[j - 1]);
                    }
                }
            }
        }
    }
}

} // verus!
