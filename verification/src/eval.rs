//! The expression evaluator of VALIDATE and CONDITION blocks.
//!
//! Numeric comparison, arithmetic and negation work on doubles, which this
//! library does not compute: each such step is handed out as a [`FloatTask`],
//! and its answer is handed back in the `answers` list on the next call.
//! Evaluation is deterministic, so a caller that answers every task in turn
//! reaches the final result after as many calls as there are float steps.

use vstd::prelude::*;
use crate::ast::{BinOperator, Expr, UnaryOperator, float_json, int_json, float_to_json, int_to_json};
use crate::json::{
    JNum, JVal, JsonNumber, JsonValue, clone_json, clone_number, decimal, float_is_zero, is_truthy,
    json_eq, json_equal, json_text, jview, jviews, lemma_jviews, lemma_mviews, mviews, push_chars,
    push_decimal, push_json, truthy,
};
use crate::ledger::StateLedger;
use crate::text::{chars_of, owned, str_eq, string_of};

verus! {

/// A step on doubles that the evaluator needs done.
#[derive(Debug, Clone, Copy, PartialEq, Eq, Structural)]
pub enum FloatOp {
    Gt,
    Lt,
    Ge,
    Le,
    Add,
    Sub,
    Mul,
    Div,
    Mod,
    Neg,
}

/// A step on doubles: both operands as doubles (`as_f64`), combined by `op`;
/// for `Neg` only `left` counts. The answer is `json!(result)`: a boolean for
/// comparisons, a float number (or null when not finite) otherwise.
pub struct FloatTask {
    pub op: FloatOp,
    pub left: JsonNumber,
    pub right: JsonNumber,
}

/// Outcome of an evaluation call: the result, or a float step to answer first.
pub enum Eval {
    Done(Result<JsonValue, String>),
    Need(FloatTask),
}

/// Mathematical view of [`Eval`].
pub enum EvalV {
    Done(Result<JVal, Seq<char>>),
    Need(FloatOp, JNum, JNum),
}

pub open spec fn eval_view(e: Eval) -> EvalV {
    match e {
        Eval::Done(Ok(v)) => EvalV::Done(Ok(v@)),
        Eval::Done(Err(m)) => EvalV::Done(Err(m@)),
        Eval::Need(t) => EvalV::Need(t.op, t.left@, t.right@),
    }
}

pub open spec fn as_num(v: JVal) -> Option<JNum> {
    match v {
        JVal::Num(n) => Some(n),
        _ => None,
    }
}

/// Whether a number is zero as a double.
pub open spec fn num_is_zero(n: JNum) -> bool {
    match n {
        JNum::PosInt(u) => u == 0,
        JNum::NegInt(_) => false,
        JNum::Float(b, _) => float_is_zero(b),
    }
}

/// The next float step: taken from the answers when one is there.
pub open spec fn float_step(op: FloatOp, a: JNum, b: JNum, ans: Seq<JVal>, pos: nat) -> (EvalV, nat) {
    if pos < ans.len() {
        (EvalV::Done(Ok(ans[pos as int])), pos + 1)
    } else {
        (EvalV::Need(op, a, b), pos)
    }
}

/// The text of a value as string concatenation uses it: a string as is,
/// anything else as its JSON text.
pub open spec fn plain_text(v: JVal) -> Seq<char> {
    match v {
        JVal::Str(s) => s,
        _ => json_text(v),
    }
}

pub open spec fn arith_name(op: BinOperator) -> Seq<char> {
    match op {
        BinOperator::Add => "Add"@,
        BinOperator::Sub => "Sub"@,
        BinOperator::Mul => "Mul"@,
        BinOperator::Div => "Div"@,
        _ => "Mod"@,
    }
}

pub open spec fn cmp_float_op(op: BinOperator) -> FloatOp {
    match op {
        BinOperator::Gt => FloatOp::Gt,
        BinOperator::Lt => FloatOp::Lt,
        BinOperator::Ge => FloatOp::Ge,
        _ => FloatOp::Le,
    }
}

pub open spec fn arith_float_op(op: BinOperator) -> FloatOp {
    match op {
        BinOperator::Add => FloatOp::Add,
        BinOperator::Sub => FloatOp::Sub,
        BinOperator::Mul => FloatOp::Mul,
        BinOperator::Div => FloatOp::Div,
        _ => FloatOp::Mod,
    }
}

pub open spec fn err(m: Seq<char>) -> EvalV {
    EvalV::Done(Err(m))
}

pub open spec fn ok(v: JVal) -> EvalV {
    EvalV::Done(Ok(v))
}

/// A binary operation on two evaluated operands.
pub open spec fn binop_spec(op: BinOperator, l: JVal, r: JVal, ans: Seq<JVal>, pos: nat) -> (EvalV, nat) {
    match op {
        BinOperator::Eq => (ok(JVal::Bool(json_eq(l, r))), pos),
        BinOperator::Ne => (ok(JVal::Bool(!json_eq(l, r))), pos),
        BinOperator::And => (ok(JVal::Bool(truthy(l) && truthy(r))), pos),
        BinOperator::Or => (ok(JVal::Bool(truthy(l) || truthy(r))), pos),
        BinOperator::Gt | BinOperator::Lt | BinOperator::Ge | BinOperator::Le => {
            match (as_num(l), as_num(r)) {
                (None, _) => (err("Cannot compare: "@ + json_text(l)), pos),
                (Some(_), None) => (err("Cannot compare: "@ + json_text(r)), pos),
                (Some(a), Some(b)) => float_step(cmp_float_op(op), a, b, ans, pos),
            }
        },
        _ => {
            match (as_num(l), as_num(r)) {
                (Some(a), Some(b)) => if op == BinOperator::Div && num_is_zero(b) {
                    (err("Division by zero"@), pos)
                } else if op == BinOperator::Mod && num_is_zero(b) {
                    (err("Modulo by zero"@), pos)
                } else {
                    float_step(arith_float_op(op), a, b, ans, pos)
                },
                _ => if op == BinOperator::Add {
                    (ok(JVal::Str(plain_text(l) + plain_text(r))), pos)
                } else {
                    (err("Cannot perform "@ + arith_name(op) + " on "@ + json_text(l) + " and "@
                        + json_text(r)), pos)
                },
            }
        },
    }
}

/// The value of the first member with this key.
pub open spec fn member_get(m: Seq<(Seq<char>, JVal)>, key: Seq<char>) -> Option<JVal>
    decreases m.len(),
{
    if m.len() == 0 {
        None
    } else if m[0].0 == key {
        Some(m[0].1)
    } else {
        member_get(m.drop_first(), key)
    }
}

/// Indexing `obj[key]`.
pub open spec fn index_spec(obj: JVal, k: JVal) -> Result<JVal, Seq<char>> {
    match obj {
        JVal::Arr(a) => match k {
            JVal::Num(JNum::PosInt(idx)) => if (idx as int) < a.len() {
                Ok(a[idx as int])
            } else {
                Err("Index "@ + decimal(idx as nat) + " out of bounds"@)
            },
            _ => Err("Array index must be integer, got: "@ + json_text(k)),
        },
        JVal::Obj(m) => match k {
            JVal::Str(key) => match member_get(m, key) {
                Some(v) => Ok(v),
                None => Err("Key '"@ + key + "' not found in object"@),
            },
            _ => Err("Object key must be string, got: "@ + json_text(k)),
        },
        _ => Err("Cannot index into: "@ + json_text(obj)),
    }
}

/// Field access `obj.field`.
pub open spec fn dot_spec(obj: JVal, field: Seq<char>) -> Result<JVal, Seq<char>> {
    match obj {
        JVal::Obj(m) => match member_get(m, field) {
            Some(v) => Ok(v),
            None => Err("Field '"@ + field + "' not found in object"@),
        },
        _ => Err("Cannot access field '"@ + field + "' on: "@ + json_text(obj)),
    }
}

/// Whether `n` occurs as a contiguous part of `s`.
pub open spec fn has_substring(s: Seq<char>, n: Seq<char>) -> bool {
    exists|i: int| 0 <= i <= s.len() - n.len() && #[trigger] s.subrange(i, i + n.len()) == n
}

pub open spec fn value_kind(v: JVal) -> Seq<char> {
    match v {
        JVal::Null => "null"@,
        JVal::Bool(_) => "bool"@,
        JVal::Num(_) => "number"@,
        JVal::Str(_) => "string"@,
        JVal::Arr(_) => "array"@,
        JVal::Obj(_) => "object"@,
    }
}

/// Number of UTF-8 bytes of a string, as `str::len` gives it.
pub open spec fn byte_len(s: Seq<char>) -> nat {
    (vstd::utf8::encode_utf8(s).len() as usize) as nat
}

/// The built-in functions `len`, `type_of`, `contains` and `keys`.
pub open spec fn builtin_spec(name: Seq<char>, args: Seq<JVal>) -> Result<JVal, Seq<char>> {
    if name == "len"@ {
        if args.len() == 0 {
            Err("len() requires 1 argument"@)
        } else {
            match args[0] {
                JVal::Str(s) => Ok(JVal::Num(JNum::PosInt(byte_len(s) as u64))),
                JVal::Arr(a) => Ok(JVal::Num(JNum::PosInt(a.len() as u64))),
                JVal::Obj(o) => Ok(JVal::Num(JNum::PosInt(o.len() as u64))),
                _ => Err("len() not supported for: "@ + json_text(args[0])),
            }
        }
    } else if name == "type_of"@ {
        if args.len() == 0 {
            Err("type_of() requires 1 argument"@)
        } else {
            Ok(JVal::Str(value_kind(args[0])))
        }
    } else if name == "contains"@ {
        if args.len() != 2 {
            Err("contains() requires 2 arguments"@)
        } else {
            match args[0] {
                JVal::Str(s) => match args[1] {
                    JVal::Str(n) => Ok(JVal::Bool(has_substring(s, n))),
                    _ => Err("contains() needle must be string"@),
                },
                JVal::Arr(a) => Ok(
                    JVal::Bool(exists|i: int| 0 <= i < a.len() && json_eq(#[trigger] a[i], args[1])),
                ),
                _ => Err("contains() not supported for: "@ + json_text(args[0])),
            }
        }
    } else if name == "keys"@ {
        if args.len() == 0 {
            Err("keys() requires 1 argument"@)
        } else {
            match args[0] {
                JVal::Obj(o) => Ok(JVal::Arr(o.map_values(|m: (Seq<char>, JVal)| JVal::Str(m.0)))),
                _ => Err("keys() requires an object, got: "@ + json_text(args[0])),
            }
        }
    } else {
        Err("Unknown function: "@ + name)
    }
}

/// Outcome of evaluating a list of arguments: their values, or the outcome
/// that stopped the evaluation.
pub enum ArgsV {
    Vals(Seq<JVal>),
    Stop(EvalV),
}

pub open spec fn done_of(r: Result<JVal, Seq<char>>) -> EvalV {
    EvalV::Done(r)
}

/// Evaluation of an expression against a ledger, with float answers `ans`
/// of which the first `pos` are already used. Operands are evaluated left
/// to right and the first error is the result.
pub open spec fn eval_spec(e: Expr, led: Map<Seq<char>, JVal>, ans: Seq<JVal>, pos: nat) -> (EvalV, nat)
    decreases e, 1nat,
{
    match e {
        Expr::Null => (ok(JVal::Null), pos),
        Expr::Bool(b) => (ok(JVal::Bool(b)), pos),
        Expr::Int(i) => (ok(int_json(i)), pos),
        Expr::Float(f) => (ok(float_json(f)), pos),
        Expr::Str(s) => (ok(JVal::Str(s@)), pos),
        Expr::Address(a) => if led.contains_key(a@) {
            (ok(led[a@]), pos)
        } else {
            (err("Address "@ + a@ + " not found in ledger"@), pos)
        },
        Expr::Identifier(name) => if led.contains_key(name@) {
            (ok(led[name@]), pos)
        } else {
            (ok(JVal::Str(name@)), pos)
        },
        Expr::BinOp { left, op, right } => {
            let (l, p1) = eval_spec(*left, led, ans, pos);
            match l {
                EvalV::Done(Ok(lv)) => {
                    let (r, p2) = eval_spec(*right, led, ans, p1);
                    match r {
                        EvalV::Done(Ok(rv)) => binop_spec(op, lv, rv, ans, p2),
                        _ => (r, p2),
                    }
                },
                _ => (l, p1),
            }
        },
        Expr::UnaryOp { op, expr } => {
            let (x, p1) = eval_spec(*expr, led, ans, pos);
            match x {
                EvalV::Done(Ok(v)) => match op {
                    UnaryOperator::Not => (ok(JVal::Bool(!truthy(v))), p1),
                    UnaryOperator::Neg => match as_num(v) {
                        Some(a) => float_step(FloatOp::Neg, a, a, ans, p1),
                        None => (err("Cannot negate: "@ + json_text(v)), p1),
                    },
                },
                _ => (x, p1),
            }
        },
        Expr::Index { object, key } => {
            let (o, p1) = eval_spec(*object, led, ans, pos);
            match o {
                EvalV::Done(Ok(ov)) => {
                    let (k, p2) = eval_spec(*key, led, ans, p1);
                    match k {
                        EvalV::Done(Ok(kv)) => (done_of(index_spec(ov, kv)), p2),
                        _ => (k, p2),
                    }
                },
                _ => (o, p1),
            }
        },
        Expr::DotAccess { object, field } => {
            let (o, p1) = eval_spec(*object, led, ans, pos);
            match o {
                EvalV::Done(Ok(ov)) => (done_of(dot_spec(ov, field@)), p1),
                _ => (o, p1),
            }
        },
        Expr::FuncCall { name, args } => {
            let (a, p1) = eval_args_spec(args@, led, ans, pos);
            match a {
                ArgsV::Vals(vals) => (done_of(builtin_spec(name@, vals)), p1),
                ArgsV::Stop(x) => (x, p1),
            }
        },
    }
}

/// Evaluation of function arguments, left to right.
pub open spec fn eval_args_spec(s: Seq<Expr>, led: Map<Seq<char>, JVal>, ans: Seq<JVal>, pos: nat) -> (ArgsV, nat)
    decreases s, 0nat,
{
    if s.len() == 0 {
        (ArgsV::Vals(Seq::empty()), pos)
    } else {
        let (x, p1) = eval_spec(s[0], led, ans, pos);
        match x {
            EvalV::Done(Ok(v)) => {
                let (rest, p2) = eval_args_spec(s.subrange(1, s.len() as int), led, ans, p1);
                match rest {
                    ArgsV::Vals(vs) => (ArgsV::Vals(seq![v] + vs), p2),
                    ArgsV::Stop(y) => (ArgsV::Stop(y), p2),
                }
            },
            _ => (ArgsV::Stop(x), p1),
        }
    }
}


// ---------------------------------------------------------------------------
// Executable evaluator
// ---------------------------------------------------------------------------

pub open spec fn args_prepend(prefix: Seq<JVal>, r: (ArgsV, nat)) -> (ArgsV, nat) {
    match r.0 {
        ArgsV::Vals(vs) => (ArgsV::Vals(prefix + vs), r.1),
        ArgsV::Stop(y) => (ArgsV::Stop(y), r.1),
    }
}

fn text_with_json(prefix: &str, v: &JsonValue) -> (r: String)
    ensures
        r@ == prefix@ + json_text(v@),
{
    let mut out: Vec<char> = Vec::new();
    push_chars(&mut out, prefix);
    push_json(&mut out, v);
    string_of(out.as_slice())
}

fn text3(a: &str, b: &str, c: &str) -> (r: String)
    ensures
        r@ == a@ + b@ + c@,
{
    let mut out: Vec<char> = Vec::new();
    push_chars(&mut out, a);
    push_chars(&mut out, b);
    push_chars(&mut out, c);
    string_of(out.as_slice())
}

fn done_err(m: String) -> (r: Eval)
    ensures
        eval_view(r) == err(m@),
{
    Eval::Done(Err(m))
}

fn done_ok(v: JsonValue) -> (r: Eval)
    ensures
        eval_view(r) == ok(v@),
{
    Eval::Done(Ok(v))
}

fn float_step_exec(
    op: FloatOp,
    a: &JsonNumber,
    b: &JsonNumber,
    answers: &Vec<JsonValue>,
    pos: usize,
) -> (r: (Eval, usize))
    requires
        pos <= answers@.len(),
    ensures
        (eval_view(r.0), r.1 as nat) == float_step(op, a@, b@, jviews(answers@), pos as nat),
        r.1 <= answers@.len(),
{
    proof {
        lemma_jviews(answers@);
    }
    if pos < answers.len() {
        (done_ok(clone_json(&answers[pos])), pos + 1)
    } else {
        (Eval::Need(FloatTask { op, left: clone_number(a), right: clone_number(b) }), pos)
    }
}

fn num_zero(n: &JsonNumber) -> (r: bool)
    ensures
        r == num_is_zero(n@),
{
    match n {
        JsonNumber::PosInt(u) => *u == 0,
        JsonNumber::NegInt(_) => false,
        JsonNumber::Float(f) => f.bits == 0 || f.bits == 0x8000_0000_0000_0000u64,
    }
}

fn push_plain(out: &mut Vec<char>, v: &JsonValue)
    ensures
        final(out)@ == old(out)@ + plain_text(v@),
{
    match v {
        JsonValue::String(s) => push_chars(out, s.as_str()),
        _ => push_json(out, v),
    }
}

fn binop_exec(
    op: BinOperator,
    l: &JsonValue,
    r: &JsonValue,
    answers: &Vec<JsonValue>,
    pos: usize,
) -> (res: (Eval, usize))
    requires
        pos <= answers@.len(),
    ensures
        (eval_view(res.0), res.1 as nat) == binop_spec(op, l@, r@, jviews(answers@), pos as nat),
        res.1 <= answers@.len(),
{
    match op {
        BinOperator::Eq => (done_ok(JsonValue::Bool(json_equal(l, r))), pos),
        BinOperator::Ne => (done_ok(JsonValue::Bool(!json_equal(l, r))), pos),
        BinOperator::And => (done_ok(JsonValue::Bool(is_truthy(l) && is_truthy(r))), pos),
        BinOperator::Or => (done_ok(JsonValue::Bool(is_truthy(l) || is_truthy(r))), pos),
        BinOperator::Gt | BinOperator::Lt | BinOperator::Ge | BinOperator::Le => {
            match l {
                JsonValue::Number(a) => match r {
                    JsonValue::Number(b) => {
                        let fop = match op {
                            BinOperator::Gt => FloatOp::Gt,
                            BinOperator::Lt => FloatOp::Lt,
                            BinOperator::Ge => FloatOp::Ge,
                            _ => FloatOp::Le,
                        };
                        float_step_exec(fop, a, b, answers, pos)
                    },
                    _ => (done_err(text_with_json("Cannot compare: ", r)), pos),
                },
                _ => (done_err(text_with_json("Cannot compare: ", l)), pos),
            }
        },
        _ => {
            let both = match (l, r) {
                (JsonValue::Number(_), JsonValue::Number(_)) => true,
                _ => false,
            };
            if both {
                match (l, r) {
                    (JsonValue::Number(a), JsonValue::Number(b)) => {
                        let is_div = match op {
                            BinOperator::Div => true,
                            _ => false,
                        };
                        let is_mod = match op {
                            BinOperator::Mod => true,
                            _ => false,
                        };
                        if is_div && num_zero(b) {
                            (done_err(owned("Division by zero")), pos)
                        } else if is_mod && num_zero(b) {
                            (done_err(owned("Modulo by zero")), pos)
                        } else {
                            let fop = match op {
                                BinOperator::Add => FloatOp::Add,
                                BinOperator::Sub => FloatOp::Sub,
                                BinOperator::Mul => FloatOp::Mul,
                                BinOperator::Div => FloatOp::Div,
                                _ => FloatOp::Mod,
                            };
                            float_step_exec(fop, a, b, answers, pos)
                        }
                    },
                    _ => (done_err(owned("Division by zero")), pos),
                }
            } else {
                match op {
                    BinOperator::Add => {
                        let mut out: Vec<char> = Vec::new();
                        push_plain(&mut out, l);
                        push_plain(&mut out, r);
                        (done_ok(JsonValue::String(string_of(out.as_slice()))), pos)
                    },
                    _ => {
                        let name = match op {
                            BinOperator::Sub => "Sub",
                            BinOperator::Mul => "Mul",
                            BinOperator::Div => "Div",
                            _ => "Mod",
                        };
                        let mut out: Vec<char> = Vec::new();
                        push_chars(&mut out, "Cannot perform ");
                        push_chars(&mut out, name);
                        push_chars(&mut out, " on ");
                        push_json(&mut out, l);
                        push_chars(&mut out, " and ");
                        push_json(&mut out, r);
                        (done_err(string_of(out.as_slice())), pos)
                    },
                }
            }
        },
    }
}

proof fn lemma_member_get(m: Seq<(Seq<char>, JVal)>, key: Seq<char>, i: int)
    requires
        0 <= i <= m.len(),
    ensures
        i < m.len() ==> member_get(m.subrange(i, m.len() as int), key) == (if m[i].0 == key {
            Some(m[i].1)
        } else {
            member_get(m.subrange(i + 1, m.len() as int), key)
        }),
        i == m.len() ==> member_get(m.subrange(i, m.len() as int), key) is None,
{
    if i < m.len() {
        assert(m.subrange(i, m.len() as int).drop_first() == m.subrange(i + 1, m.len() as int));
    }
}

pub fn member_lookup<'a>(o: &'a Vec<(String, JsonValue)>, key: &str) -> (r: Option<&'a JsonValue>)
    ensures
        match member_get(mviews(o@), key@) {
            Some(v) => r is Some && r->0@ == v,
            None => r is None,
        },
{
    proof {
        lemma_mviews(o@);
    }
    let ghost mv = mviews(o@);
    assert(mv.subrange(0, mv.len() as int) == mv);
    let mut i: usize = 0;
    while i < o.len()
        invariant
            0 <= i <= o@.len(),
            mv == mviews(o@),
            mv.len() == o@.len(),
            forall|k: int| 0 <= k < o@.len() ==> #[trigger] mv[k] == (o@[k].0@, jview(o@[k].1)),
            member_get(mv, key@) == member_get(mv.subrange(i as int, mv.len() as int), key@),
        decreases o@.len() - i,
    {
        proof {
            lemma_member_get(mv, key@, i as int);
        }
        if str_eq(o[i].0.as_str(), key) {
            return Some(&o[i].1);
        }
        i = i + 1;
    }
    proof {
        lemma_member_get(mv, key@, i as int);
    }
    None
}

fn index_exec(obj: &JsonValue, k: &JsonValue) -> (r: Eval)
    ensures
        eval_view(r) == done_of(index_spec(obj@, k@)),
{
    match obj {
        JsonValue::Array(a) => {
            proof {
                lemma_jviews(a@);
            }
            match k {
                JsonValue::Number(JsonNumber::PosInt(idx)) => {
                    if *idx < a.len() as u64 {
                        done_ok(clone_json(&a[*idx as usize]))
                    } else {
                        let mut out: Vec<char> = Vec::new();
                        push_chars(&mut out, "Index ");
                        push_decimal(&mut out, *idx);
                        push_chars(&mut out, " out of bounds");
                        done_err(string_of(out.as_slice()))
                    }
                },
                _ => done_err(text_with_json("Array index must be integer, got: ", k)),
            }
        },
        JsonValue::Object(m) => match k {
            JsonValue::String(key) => match member_lookup(m, key.as_str()) {
                Some(v) => done_ok(clone_json(v)),
                None => done_err(text3("Key '", key.as_str(), "' not found in object")),
            },
            _ => done_err(text_with_json("Object key must be string, got: ", k)),
        },
        _ => done_err(text_with_json("Cannot index into: ", obj)),
    }
}

fn dot_exec(obj: &JsonValue, field: &String) -> (r: Eval)
    ensures
        eval_view(r) == done_of(dot_spec(obj@, field@)),
{
    match obj {
        JsonValue::Object(m) => match member_lookup(m, field.as_str()) {
            Some(v) => done_ok(clone_json(v)),
            None => done_err(text3("Field '", field.as_str(), "' not found in object")),
        },
        _ => {
            let mut out: Vec<char> = Vec::new();
            push_chars(&mut out, "Cannot access field '");
            push_chars(&mut out, field.as_str());
            push_chars(&mut out, "' on: ");
            push_json(&mut out, obj);
            done_err(string_of(out.as_slice()))
        },
    }
}

fn contains_substring(s: &str, n: &str) -> (r: bool)
    ensures
        r == has_substring(s@, n@),
{
    let sv = chars_of(s);
    let nv = chars_of(n);
    if nv.len() > sv.len() {
        return false;
    }
    let mut i: usize = 0;
    while i <= sv.len() - nv.len()
        invariant
            sv@ == s@,
            nv@ == n@,
            nv@.len() <= sv@.len(),
            0 <= i <= sv@.len() - nv@.len() + 1,
            forall|j: int| 0 <= j < i ==> #[trigger] sv@.subrange(j, j + nv@.len()) != nv@,
        decreases sv@.len() - nv@.len() + 1 - i,
    {
        let mut k: usize = 0;
        let mut same = true;
        while k < nv.len()
            invariant
                0 <= k <= nv@.len(),
                nv@.len() <= sv@.len(),
                i + nv@.len() <= sv@.len(),
                sv@.len() <= usize::MAX,
                same == forall|t: int| 0 <= t < k ==> sv@[i + t] == nv@[t],
            decreases nv@.len() - k,
        {
            if sv[i + k] != nv[k] {
                same = false;
            }
            k = k + 1;
        }
        if same {
            assert(sv@.subrange(i as int, i + nv@.len()) =~= nv@);
            return true;
        }
        assert(sv@.subrange(i as int, i + nv@.len()) != nv@) by {
            let t = choose|t: int| 0 <= t < nv@.len() && sv@[i + t] != nv@[t];
            assert(sv@.subrange(i as int, i + nv@.len())[t] != nv@[t]);
        }
        i = i + 1;
    }
    false
}

fn array_contains(a: &Vec<JsonValue>, needle: &JsonValue) -> (r: bool)
    ensures
        r == exists|i: int| 0 <= i < jviews(a@).len() && json_eq(#[trigger] jviews(a@)[i], needle@),
{
    proof {
        lemma_jviews(a@);
    }
    let mut i: usize = 0;
    while i < a.len()
        invariant
            0 <= i <= a@.len(),
            jviews(a@).len() == a@.len(),
            forall|k: int| 0 <= k < a@.len() ==> #[trigger] jviews(a@)[k] == jview(a@[k]),
            forall|j: int| 0 <= j < i ==> !json_eq(#[trigger] jviews(a@)[j], needle@),
        decreases a@.len() - i,
    {
        if json_equal(&a[i], needle) {
            assert(json_eq(jviews(a@)[i as int], needle@));
            return true;
        }
        i = i + 1;
    }
    false
}

fn builtin_exec(name: &String, args: &Vec<JsonValue>) -> (r: Eval)
    ensures
        eval_view(r) == done_of(builtin_spec(name@, jviews(args@))),
{
    proof {
        lemma_jviews(args@);
    }
    let nm = name.as_str();
    if str_eq(nm, "len") {
        if args.len() == 0 {
            return done_err(owned("len() requires 1 argument"));
        }
        match &args[0] {
            JsonValue::String(s) => {
                let n = s.as_str().len();
                let r = done_ok(JsonValue::Number(JsonNumber::PosInt(n as u64)));
                assert(eval_view(r) == done_of(builtin_spec(name@, jviews(args@))));
                r
            },
            JsonValue::Array(a) => {
                proof { lemma_jviews(a@); }
                done_ok(JsonValue::Number(JsonNumber::PosInt(a.len() as u64)))
            },
            JsonValue::Object(o) => {
                proof { lemma_mviews(o@); }
                done_ok(JsonValue::Number(JsonNumber::PosInt(o.len() as u64)))
            },
            _ => done_err(text_with_json("len() not supported for: ", &args[0])),
        }
    } else if str_eq(nm, "type_of") {
        if args.len() == 0 {
            return done_err(owned("type_of() requires 1 argument"));
        }
        let t = match &args[0] {
            JsonValue::Null => "null",
            JsonValue::Bool(_) => "bool",
            JsonValue::Number(_) => "number",
            JsonValue::String(_) => "string",
            JsonValue::Array(_) => "array",
            JsonValue::Object(_) => "object",
        };
        let r = done_ok(JsonValue::String(owned(t)));
        assert(eval_view(r) == done_of(builtin_spec(name@, jviews(args@))));
        r
    } else if str_eq(nm, "contains") {
        if args.len() != 2 {
            return done_err(owned("contains() requires 2 arguments"));
        }
        match &args[0] {
            JsonValue::String(s) => match &args[1] {
                JsonValue::String(n) => {
                    let r = done_ok(JsonValue::Bool(contains_substring(s.as_str(), n.as_str())));
                    assert(eval_view(r) == done_of(builtin_spec(name@, jviews(args@))));
                    r
                },
                _ => done_err(owned("contains() needle must be string")),
            },
            JsonValue::Array(a) => {
                let b = array_contains(a, &args[1]);
                assert(jviews(args@)[0] == JVal::Arr(jviews(a@)));
                assert(jviews(args@)[1] == args@[1]@);
                let r = done_ok(JsonValue::Bool(b));
                assert(eval_view(r) == done_of(builtin_spec(name@, jviews(args@))));
                r
            },
            _ => done_err(text_with_json("contains() not supported for: ", &args[0])),
        }
    } else if str_eq(nm, "keys") {
        if args.len() == 0 {
            return done_err(owned("keys() requires 1 argument"));
        }
        match &args[0] {
            JsonValue::Object(o) => {
                proof {
                    lemma_mviews(o@);
                }
                let mut ks: Vec<JsonValue> = Vec::new();
                let mut i: usize = 0;
                while i < o.len()
                    invariant
                        0 <= i <= o@.len(),
                        mviews(o@).len() == o@.len(),
                        forall|k: int| 0 <= k < o@.len() ==> #[trigger] mviews(o@)[k] == (o@[k].0@, jview(o@[k].1)),
                        ks@.len() == i,
                        forall|k: int| 0 <= k < i ==> jview(#[trigger] ks@[k]) == JVal::Str(o@[k].0@),
                    decreases o@.len() - i,
                {
                    ks.push(JsonValue::String(owned(o[i].0.as_str())));
                    i = i + 1;
                }
                let res = JsonValue::Array(ks);
                proof {
                    lemma_jviews(ks@);
                    assert(jviews(ks@) =~= mviews(o@).map_values(|m: (Seq<char>, JVal)| JVal::Str(m.0)));
                }
                let r = done_ok(res);
                assert(eval_view(r) == done_of(builtin_spec(name@, jviews(args@))));
                r
            },
            _ => done_err(text_with_json("keys() requires an object, got: ", &args[0])),
        }
    } else {
        done_err(text_with_json_name(name))
    }
}

fn text_with_json_name(name: &String) -> (r: String)
    ensures
        r@ == "Unknown function: "@ + name@,
{
    let mut out: Vec<char> = Vec::new();
    push_chars(&mut out, "Unknown function: ");
    push_chars(&mut out, name.as_str());
    string_of(out.as_slice())
}


proof fn lemma_jviews_push(s: Seq<JsonValue>, v: JsonValue)
    ensures
        jviews(s.push(v)) == jviews(s).push(jview(v)),
{
    assert(s.push(v).subrange(0, s.len() as int) == s);
}

fn eval_rec(e: &Expr, ledger: &StateLedger, answers: &Vec<JsonValue>, pos: usize) -> (r: (Eval, usize))
    requires
        pos <= answers@.len(),
    ensures
        (eval_view(r.0), r.1 as nat) == eval_spec(*e, ledger@, jviews(answers@), pos as nat),
        r.1 <= answers@.len(),
    decreases e,
{
    match e {
        Expr::Null => (done_ok(JsonValue::Null), pos),
        Expr::Bool(b) => (done_ok(JsonValue::Bool(*b)), pos),
        Expr::Int(i) => (done_ok(int_to_json(*i)), pos),
        Expr::Float(f) => (done_ok(float_to_json(f)), pos),
        Expr::Str(s) => (done_ok(JsonValue::String(owned(s.as_str()))), pos),
        Expr::Address(a) => match ledger.read(a.as_str()) {
            Some(v) => (done_ok(clone_json(v)), pos),
            None => (done_err(text3("Address ", a.as_str(), " not found in ledger")), pos),
        },
        Expr::Identifier(name) => match ledger.read(name.as_str()) {
            Some(v) => (done_ok(clone_json(v)), pos),
            None => (done_ok(JsonValue::String(owned(name.as_str()))), pos),
        },
        Expr::BinOp { left, op, right } => {
            let (l, p1) = eval_rec(&**left, ledger, answers, pos);
            match l {
                Eval::Done(Ok(lv)) => {
                    let (r, p2) = eval_rec(&**right, ledger, answers, p1);
                    match r {
                        Eval::Done(Ok(rv)) => binop_exec(*op, &lv, &rv, answers, p2),
                        other => (other, p2),
                    }
                },
                other => (other, p1),
            }
        },
        Expr::UnaryOp { op, expr } => {
            let (x, p1) = eval_rec(&**expr, ledger, answers, pos);
            match x {
                Eval::Done(Ok(v)) => match op {
                    UnaryOperator::Not => (done_ok(JsonValue::Bool(!is_truthy(&v))), p1),
                    UnaryOperator::Neg => match &v {
                        JsonValue::Number(a) => float_step_exec(FloatOp::Neg, a, a, answers, p1),
                        _ => (done_err(text_with_json("Cannot negate: ", &v)), p1),
                    },
                },
                other => (other, p1),
            }
        },
        Expr::Index { object, key } => {
            let (o, p1) = eval_rec(&**object, ledger, answers, pos);
            match o {
                Eval::Done(Ok(ov)) => {
                    let (k, p2) = eval_rec(&**key, ledger, answers, p1);
                    match k {
                        Eval::Done(Ok(kv)) => (index_exec(&ov, &kv), p2),
                        other => (other, p2),
                    }
                },
                other => (other, p1),
            }
        },
        Expr::DotAccess { object, field } => {
            let (o, p1) = eval_rec(&**object, ledger, answers, pos);
            match o {
                Eval::Done(Ok(ov)) => (dot_exec(&ov, field), p1),
                other => (other, p1),
            }
        },
        Expr::FuncCall { name, args } => {
            let ghost led = ledger@;
            let ghost ans = jviews(answers@);
            let mut vals: Vec<JsonValue> = Vec::new();
            let mut p: usize = pos;
            let mut i: usize = 0;
            assert(args@.subrange(0, args@.len() as int) == args@);
            while i < args.len()
                invariant
                    0 <= i <= args@.len(),
                    p <= answers@.len(),
                    led == ledger@,
                    ans == jviews(answers@),
                    *e == (Expr::FuncCall { name: *name, args: *args }),
                    eval_args_spec(args@, led, ans, pos as nat) == args_prepend(
                        jviews(vals@),
                        eval_args_spec(args@.subrange(i as int, args@.len() as int), led, ans, p as nat),
                    ),
                decreases args@.len() - i,
            {
                proof {
                    let ghost ev = *e;
                    assert(decreases_to!(ev => ev->FuncCall_args));
                    assert(decreases_to!(ev->FuncCall_args => ev->FuncCall_args@));
                    assert(decreases_to!(ev->FuncCall_args@ => ev->FuncCall_args@[i as int]));
                }
                let ghost sub = args@.subrange(i as int, args@.len() as int);
                assert(sub[0] == args@[i as int]);
                assert(sub.subrange(1, sub.len() as int) == args@.subrange(i + 1, args@.len() as int));
                let (x, p1) = eval_rec(&args[i], ledger, answers, p);
                match x {
                    Eval::Done(Ok(v)) => {
                        proof {
                            lemma_jviews_push(vals@, v);
                            let ghost rest = eval_args_spec(args@.subrange(i + 1, args@.len() as int), led, ans, p1 as nat);
                            match rest.0 {
                                ArgsV::Vals(vs) => {
                                    assert(jviews(vals@) + (seq![v@] + vs) =~= jviews(vals@).push(v@) + vs);
                                },
                                _ => {},
                            }
                        }
                        vals.push(v);
                        p = p1;
                    },
                    other => {
                        return (other, p1);
                    },
                }
                i = i + 1;
            }
            proof {
                assert(jviews(vals@) + Seq::<JVal>::empty() =~= jviews(vals@));
            }
            (builtin_exec(name, &vals), p)
        },
    }
}

/// Evaluates an expression against a ledger. `answers` holds the results of the
/// float steps asked for so far, in order; the outcome is the value or error of
/// the expression, or the next float step when the answers run out.
pub fn eval_expr(expr: &Expr, ledger: &StateLedger, answers: &Vec<JsonValue>) -> (r: Eval)
    ensures
        eval_view(r) == eval_spec(*expr, ledger@, jviews(answers@), 0).0,
{
    let (r, _) = eval_rec(expr, ledger, answers, 0);
    r
}

} // verus!
