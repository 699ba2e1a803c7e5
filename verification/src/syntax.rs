//! From the syntax tree of an Aether program to its abstract syntax.
//!
//! The tree holds, for each grammar rule matched, the rule, the text it
//! matched and the rules matched inside it, in order. The conversion below
//! reads that tree: root blocks, their context, action, request, failure and
//! parallel blocks, node sections, values and expressions (with the usual
//! precedence: `||` below `&&` below `!` below comparisons below `+ -` below
//! `* / %` below unary minus below indexing and field access). A tree that
//! the grammar cannot produce is refused as malformed.

use vstd::prelude::*;
use crate::ast::{
    AetherType, AetherValue, Assertion, BinOperator, Expr, GuestLang, HaltAction, InputBinding,
    InputSource, MetaBlock, OutputBinding, SafetyLevel, UnaryOperator, ActionNode, AetherProgram, Block,
    ContextBlock, FailureBlock, ParallelBlock, RequestBlock, RootBlock, aether_type_from_name,
    guest_lang_from_name, safety_from_tag,
};
use crate::json::{FloatRepr, JVal};
use crate::depends::{link_blocks, link_dependencies};
use crate::text::{chars_of, owned, str_eq, string_of, trim, unicode_lower};

verus! {

/// The Aether grammar: it matches program text into the syntax trees that
/// `program_from_tree` reads.
pub struct AetherParser;

/// The grammar rules of the Aether syntax.
#[derive(Debug, Clone, Copy, PartialEq, Eq, Structural)]
pub enum SyntaxRule {
    Program,
    RootBlock,
    Block,
    ContextBlock,
    CtxPair,
    ActionNode,
    ActionContent,
    MetaBlock,
    InBlock,
    RefPair,
    ValuePair,
    Alias,
    ConditionBlock,
    ExecBlock,
    OutBlock,
    TypePair,
    ValBlock,
    Assertion,
    HaltAction,
    RequestBlock,
    RequestContent,
    SenderField,
    TargetField,
    ContextField,
    InstructionsField,
    FailureBlock,
    ParallelBlock,
    Pair,
    Value,
    Hash,
    Address,
    Identifier,
    StringLiteral,
    Number,
    Boolean,
    Expression,
    OrExpr,
    AndExpr,
    NotExpr,
    Comparison,
    Additive,
    Multiplicative,
    Unary,
    Accessor,
    IndexAccess,
    DotAccess,
    Atom,
    FuncCall,
    /// Any other rule (operators, keywords, the end of input).
    Other,
}

/// A node of the syntax tree.
#[derive(Debug)]
pub struct SyntaxNode {
    pub rule: SyntaxRule,
    /// The text the rule matched.
    pub text: String,
    /// The rules matched inside it, in order.
    pub children: Vec<SyntaxNode>,
    /// For a number with a decimal point: the double it denotes, when the text
    /// reads as one.
    pub float: Option<FloatRepr>,
}

/// The name of a rule in the grammar.
pub open spec fn rule_name(r: SyntaxRule) -> Seq<char> {
    match r {
        SyntaxRule::Program => "program"@,
        SyntaxRule::RootBlock => "root_block"@,
        SyntaxRule::Block => "block"@,
        SyntaxRule::ContextBlock => "context_block"@,
        SyntaxRule::CtxPair => "ctx_pair"@,
        SyntaxRule::ActionNode => "action_node"@,
        SyntaxRule::ActionContent => "action_content"@,
        SyntaxRule::MetaBlock => "meta_block"@,
        SyntaxRule::InBlock => "in_block"@,
        SyntaxRule::RefPair => "ref_pair"@,
        SyntaxRule::ValuePair => "value_pair"@,
        SyntaxRule::Alias => "alias"@,
        SyntaxRule::ConditionBlock => "condition_block"@,
        SyntaxRule::ExecBlock => "exec_block"@,
        SyntaxRule::OutBlock => "out_block"@,
        SyntaxRule::TypePair => "type_pair"@,
        SyntaxRule::ValBlock => "val_block"@,
        SyntaxRule::Assertion => "assertion"@,
        SyntaxRule::HaltAction => "halt_action"@,
        SyntaxRule::RequestBlock => "request_block"@,
        SyntaxRule::RequestContent => "request_content"@,
        SyntaxRule::SenderField => "sender_field"@,
        SyntaxRule::TargetField => "target_field"@,
        SyntaxRule::ContextField => "context_field"@,
        SyntaxRule::InstructionsField => "instructions_field"@,
        SyntaxRule::FailureBlock => "failure_block"@,
        SyntaxRule::ParallelBlock => "parallel_block"@,
        SyntaxRule::Pair => "pair"@,
        SyntaxRule::Value => "value"@,
        SyntaxRule::Hash => "hash"@,
        SyntaxRule::Address => "address"@,
        SyntaxRule::Identifier => "identifier"@,
        SyntaxRule::StringLiteral => "string_literal"@,
        SyntaxRule::Number => "number"@,
        SyntaxRule::Boolean => "boolean"@,
        SyntaxRule::Expression => "expression"@,
        SyntaxRule::OrExpr => "or_expr"@,
        SyntaxRule::AndExpr => "and_expr"@,
        SyntaxRule::NotExpr => "not_expr"@,
        SyntaxRule::Comparison => "comparison"@,
        SyntaxRule::Additive => "additive"@,
        SyntaxRule::Multiplicative => "multiplicative"@,
        SyntaxRule::Unary => "unary"@,
        SyntaxRule::Accessor => "accessor"@,
        SyntaxRule::IndexAccess => "index_access"@,
        SyntaxRule::DotAccess => "dot_access"@,
        SyntaxRule::Atom => "atom"@,
        SyntaxRule::FuncCall => "func_call"@,
        SyntaxRule::Other => "other"@,
    }
}

pub open spec fn malformed() -> Seq<char> {
    "Malformed syntax tree"@
}

// ---------------------------------------------------------------------------
// Number texts
// ---------------------------------------------------------------------------

pub open spec fn is_digit(c: char) -> bool {
    '0' <= c && c <= '9'
}

/// The value of a non-empty run of decimal digits.
pub open spec fn digits_value(s: Seq<char>) -> Option<nat>
    decreases s.len(),
{
    if s.len() == 0 || !is_digit(s.last()) {
        None
    } else if s.len() == 1 {
        Some((s.last() as nat - '0' as nat) as nat)
    } else {
        match digits_value(s.drop_last()) {
            Some(v) => Some(v * 10 + (s.last() as nat - '0' as nat) as nat),
            None => None,
        }
    }
}

/// The integer written as an optional sign and decimal digits.
pub open spec fn int_literal_value(s: Seq<char>) -> Option<int> {
    if s.len() > 0 && s[0] == '-' {
        match digits_value(s.drop_first()) {
            Some(v) => Some(-(v as int)),
            None => None,
        }
    } else if s.len() > 0 && s[0] == '+' {
        match digits_value(s.drop_first()) {
            Some(v) => Some(v as int),
            None => None,
        }
    } else {
        match digits_value(s) {
            Some(v) => Some(v as int),
            None => None,
        }
    }
}

/// The message of `<ParseIntError as Display>` for a text that is neither
/// empty nor a sign and digits (an invalid digit, or an overflow met before it).
pub uninterp spec fn int_error_text(s: Seq<char>) -> Seq<char>;

/// The message of `<ParseIntError as Display>` when a text does not read as an
/// `i64`: empty text; a sign and digits out of range (too large when positive,
/// too small when negative); otherwise named `int_error_text`.
pub open spec fn int_error(s: Seq<char>) -> Seq<char> {
    if s.len() == 0 {
        "cannot parse integer from empty string"@
    } else {
        match int_literal_value(s) {
            Some(v) => if v > i64::MAX {
                "number too large to fit in target type"@
            } else {
                "number too small to fit in target type"@
            },
            None => int_error_text(s),
        }
    }
}

/// `str::parse::<i64>`: an optional `+` or `-` and decimal digits, in range;
/// otherwise the error's message.
#[verifier::external_body]
fn parse_i64(s: &str) -> (r: Result<i64, String>)
    ensures
        match int_literal_value(s@) {
            Some(v) if i64::MIN <= v <= i64::MAX => r == Ok::<i64, String>(v as i64),
            _ => r matches Err(e) && e@ == int_error(s@),
        },
        r matches Err(e) ==> (s@.len() > 0 && (int_literal_value(s@) is None) ==> e@ == int_error_text(s@)),
{
    match s.parse::<i64>() {
        Ok(v) => Ok(v),
        Err(e) => Err(e.to_string()),
    }
}

/// The count of a `RETRY(n)`: an optional `+` and decimal digits, in range.
pub open spec fn u32_literal_value(s: Seq<char>) -> Option<u32> {
    let d = if s.len() > 0 && s[0] == '+' { digits_value(s.drop_first()) } else { digits_value(s) };
    match d {
        Some(v) if v <= u32::MAX => Some(v as u32),
        _ => None,
    }
}

/// `str::parse::<u32>` with the error dropped (`.ok()`).
#[verifier::external_body]
fn parse_u32(s: &str) -> (r: Option<u32>)
    ensures
        r == u32_literal_value(s@),
{
    match s.parse::<u32>() {
        Ok(v) => Some(v),
        Err(_) => None,
    }
}


// ---------------------------------------------------------------------------
// Expressions
// ---------------------------------------------------------------------------

/// Mathematical view of an expression.
pub enum ExprV {
    Null,
    Bool(bool),
    Int(i64),
    Float(u64, Seq<char>),
    Str(Seq<char>),
    Address(Seq<char>),
    Identifier(Seq<char>),
    BinOp(Box<ExprV>, BinOperator, Box<ExprV>),
    UnaryOp(UnaryOperator, Box<ExprV>),
    Index(Box<ExprV>, Box<ExprV>),
    Dot(Box<ExprV>, Seq<char>),
    Call(Seq<char>, Seq<ExprV>),
}

pub open spec fn expr_v(e: Expr) -> ExprV
    decreases e, 1nat,
{
    match e {
        Expr::Null => ExprV::Null,
        Expr::Bool(b) => ExprV::Bool(b),
        Expr::Int(i) => ExprV::Int(i),
        Expr::Float(f) => ExprV::Float(f.bits, f.text@),
        Expr::Str(s) => ExprV::Str(s@),
        Expr::Address(a) => ExprV::Address(a@),
        Expr::Identifier(x) => ExprV::Identifier(x@),
        Expr::BinOp { left, op, right } => ExprV::BinOp(Box::new(expr_v(*left)), op, Box::new(expr_v(*right))),
        Expr::UnaryOp { op, expr } => ExprV::UnaryOp(op, Box::new(expr_v(*expr))),
        Expr::Index { object, key } => ExprV::Index(Box::new(expr_v(*object)), Box::new(expr_v(*key))),
        Expr::DotAccess { object, field } => ExprV::Dot(Box::new(expr_v(*object)), field@),
        Expr::FuncCall { name, args } => ExprV::Call(name@, exprs_v(args@)),
    }
}

pub open spec fn exprs_v(s: Seq<Expr>) -> Seq<ExprV>
    decreases s, 0nat,
{
    if s.len() == 0 {
        Seq::empty()
    } else {
        exprs_v(s.subrange(0, s.len() - 1)).push(expr_v(s[s.len() - 1]))
    }
}

pub open spec fn bin(l: ExprV, op: BinOperator, r: ExprV) -> ExprV {
    ExprV::BinOp(Box::new(l), op, Box::new(r))
}

pub open spec fn comparison_op(t: Seq<char>) -> Option<BinOperator> {
    if t == "=="@ {
        Some(BinOperator::Eq)
    } else if t == "!="@ {
        Some(BinOperator::Ne)
    } else if t == ">"@ {
        Some(BinOperator::Gt)
    } else if t == "<"@ {
        Some(BinOperator::Lt)
    } else if t == ">="@ {
        Some(BinOperator::Ge)
    } else if t == "<="@ {
        Some(BinOperator::Le)
    } else {
        None
    }
}

pub open spec fn additive_op(t: Seq<char>) -> Option<BinOperator> {
    if t == "+"@ {
        Some(BinOperator::Add)
    } else if t == "-"@ {
        Some(BinOperator::Sub)
    } else {
        None
    }
}

pub open spec fn multiplicative_op(t: Seq<char>) -> Option<BinOperator> {
    if t == "*"@ {
        Some(BinOperator::Mul)
    } else if t == "/"@ {
        Some(BinOperator::Div)
    } else if t == "%"@ {
        Some(BinOperator::Mod)
    } else {
        None
    }
}

/// The levels of the expression grammar, from the loosest binding on.
#[derive(Clone, Copy, PartialEq, Eq, Structural)]
pub enum Level {
    Expression,
    Or,
    And,
    Not,
    Comparison,
    Additive,
    Multiplicative,
    Unary,
    Accessor,
    Atom,
}

/// A string literal's contents: the text between its quotes (the quotes must
/// be single-byte characters).
pub open spec fn literal_contents(t: Seq<char>) -> Option<Seq<char>> {
    if t.len() >= 2 && (t[0] as u32) < 0x80 && (t[t.len() - 1] as u32) < 0x80 {
        Some(t.subrange(1, t.len() - 1))
    } else {
        None
    }
}

/// A number: with a decimal point, the double it denotes; otherwise an `i64`.
pub open spec fn number_of(n: SyntaxNode) -> Result<ExprV, Seq<char>> {
    if crate::text::find_char(n.text@, '.') is Some {
        match n.float {
            Some(f) => Ok(ExprV::Float(f.bits, f.text@)),
            None => Err("invalid float literal"@),
        }
    } else {
        match int_literal_value(n.text@) {
            Some(v) if i64::MIN <= v <= i64::MAX => Ok(ExprV::Int(v as i64)),
            _ => Err(int_error(n.text@)),
        }
    }
}

/// The expression of a tree node at a level of the grammar.
pub open spec fn expr_at(l: Level, n: SyntaxNode) -> Result<ExprV, Seq<char>>
    decreases n, 2nat,
{
    let cs = n.children@;
    match l {
        Level::Expression => if cs.len() == 0 {
            Err(malformed())
        } else {
            expr_at(Level::Or, cs[0])
        },
        Level::Or | Level::And | Level::Additive | Level::Multiplicative | Level::Accessor => {
            let sub = match l {
                Level::Or => Level::And,
                Level::And => Level::Not,
                Level::Additive => Level::Multiplicative,
                Level::Multiplicative => Level::Unary,
                _ => Level::Atom,
            };
            if cs.len() == 0 {
                Err(malformed())
            } else {
                match expr_at(sub, cs[0]) {
                    Ok(first) => fold_at(l, cs, 1, first),
                    Err(e) => Err(e),
                }
            }
        },
        Level::Not => if cs.len() == 2 {
            match expr_at(Level::Not, cs[1]) {
                Ok(x) => Ok(ExprV::UnaryOp(UnaryOperator::Not, Box::new(x))),
                Err(e) => Err(e),
            }
        } else if cs.len() == 0 {
            Err(malformed())
        } else {
            expr_at(Level::Comparison, cs[0])
        },
        Level::Unary => if cs.len() == 2 {
            match expr_at(Level::Unary, cs[1]) {
                Ok(x) => Ok(ExprV::UnaryOp(UnaryOperator::Neg, Box::new(x))),
                Err(e) => Err(e),
            }
        } else if cs.len() == 0 {
            Err(malformed())
        } else {
            expr_at(Level::Accessor, cs[0])
        },
        Level::Comparison => if cs.len() == 0 {
            Err(malformed())
        } else {
            match expr_at(Level::Additive, cs[0]) {
                Err(e) => Err(e),
                Ok(left) => if cs.len() >= 3 {
                    match comparison_op(cs[1].text@) {
                        None => Err("Unknown comparison op: "@ + cs[1].text@),
                        Some(op) => match expr_at(Level::Additive, cs[2]) {
                            Ok(right) => Ok(bin(left, op, right)),
                            Err(e) => Err(e),
                        },
                    }
                } else {
                    Ok(left)
                },
            }
        },
        Level::Atom => if cs.len() == 0 {
            Err(malformed())
        } else {
            let inner = cs[0];
            match inner.rule {
                SyntaxRule::Expression => expr_at(Level::Expression, inner),
                SyntaxRule::FuncCall => if inner.children@.len() == 0 {
                    Err(malformed())
                } else {
                    match args_at(inner.children@, 1) {
                        Ok(args) => Ok(ExprV::Call(inner.children@[0].text@, args)),
                        Err(e) => Err(e),
                    }
                },
                SyntaxRule::StringLiteral => match literal_contents(inner.text@) {
                    Some(c) => Ok(ExprV::Str(c)),
                    None => Err(malformed()),
                },
                SyntaxRule::Number => number_of(inner),
                SyntaxRule::Boolean => Ok(ExprV::Bool(inner.text@ == "true"@)),
                SyntaxRule::Address => Ok(ExprV::Address(inner.text@)),
                SyntaxRule::Identifier => if inner.text@ == "null"@ {
                    Ok(ExprV::Null)
                } else {
                    Ok(ExprV::Identifier(inner.text@))
                },
                _ => Err("Unexpected atom: "@ + rule_name(inner.rule)),
            }
        },
    }
}

/// The rest of a level's children from `k` on, folded onto `acc`: `||` and
/// `&&` join each operand; `+ -` and `* / %` read an operator and an operand;
/// accessors apply an index or a field.
pub open spec fn fold_at(l: Level, cs: Seq<SyntaxNode>, k: int, acc: ExprV) -> Result<ExprV, Seq<char>>
    decreases cs, cs.len() - k,
{
    if k < 0 || k >= cs.len() {
        Ok(acc)
    } else {
        match l {
            Level::Or => match expr_at(Level::And, cs[k]) {
                Ok(r) => fold_at(l, cs, k + 1, bin(acc, BinOperator::Or, r)),
                Err(e) => Err(e),
            },
            Level::And => match expr_at(Level::Not, cs[k]) {
                Ok(r) => fold_at(l, cs, k + 1, bin(acc, BinOperator::And, r)),
                Err(e) => Err(e),
            },
            Level::Additive | Level::Multiplicative => {
                let op = if l is Additive {
                    additive_op(cs[k].text@)
                } else {
                    multiplicative_op(cs[k].text@)
                };
                match op {
                    None => Err(
                        (if l is Additive {
                            "Unknown additive op: "@
                        } else {
                            "Unknown multiplicative op: "@
                        }) + cs[k].text@,
                    ),
                    Some(o) => if k + 1 >= cs.len() {
                        Err(malformed())
                    } else {
                        let sub = if l is Additive {
                            Level::Multiplicative
                        } else {
                            Level::Unary
                        };
                        match expr_at(sub, cs[k + 1]) {
                            Ok(r) => fold_at(l, cs, k + 2, bin(acc, o, r)),
                            Err(e) => Err(e),
                        }
                    },
                }
            },
            Level::Accessor => {
                let a = cs[k];
                match a.rule {
                    SyntaxRule::IndexAccess => if a.children@.len() == 0 {
                        Err(malformed())
                    } else {
                        match expr_at(Level::Expression, a.children@[0]) {
                            Ok(key) => fold_at(l, cs, k + 1, ExprV::Index(Box::new(acc), Box::new(key))),
                            Err(e) => Err(e),
                        }
                    },
                    SyntaxRule::DotAccess => if a.children@.len() == 0 {
                        Err(malformed())
                    } else {
                        fold_at(l, cs, k + 1, ExprV::Dot(Box::new(acc), a.children@[0].text@))
                    },
                    _ => fold_at(l, cs, k + 1, acc),
                }
            },
            _ => Ok(acc),
        }
    }
}

/// The arguments of a call: each child from `k` on as an expression.
pub open spec fn args_at(cs: Seq<SyntaxNode>, k: int) -> Result<Seq<ExprV>, Seq<char>>
    decreases cs, cs.len() - k,
{
    if k < 0 || k >= cs.len() {
        Ok(Seq::empty())
    } else {
        match expr_at(Level::Expression, cs[k]) {
            Ok(x) => match args_at(cs, k + 1) {
                Ok(rest) => Ok(seq![x] + rest),
                Err(e) => Err(e),
            },
            Err(e) => Err(e),
        }
    }
}


pub open spec fn res_v(r: Result<Expr, String>) -> Result<ExprV, Seq<char>> {
    match r {
        Ok(e) => Ok(expr_v(e)),
        Err(m) => Err(m@),
    }
}

proof fn lemma_child(n: SyntaxNode, k: int)
    requires
        0 <= k < n.children@.len(),
    ensures
        decreases_to!(n => n.children@[k]),
{
    assert(decreases_to!(n => n.children));
    assert(decreases_to!(n.children => n.children@));
    assert(decreases_to!(n.children@ => n.children@[k]));
}

fn text_and(prefix: &str, s: &str) -> (r: String)
    ensures
        r@ == prefix@ + s@,
{
    let mut out: Vec<char> = Vec::new();
    crate::json::push_chars(&mut out, prefix);
    crate::json::push_chars(&mut out, s);
    string_of(out.as_slice())
}

fn malformed_error() -> (r: String)
    ensures
        r@ == malformed(),
{
    owned("Malformed syntax tree")
}

fn bin_e(l: Expr, op: BinOperator, r: Expr) -> (e: Expr)
    ensures
        expr_v(e) == bin(expr_v(l), op, expr_v(r)),
{
    Expr::BinOp { left: Box::new(l), op, right: Box::new(r) }
}

fn op_of(l: Level, t: &str) -> (r: Option<BinOperator>)
    ensures
        r == (if l is Comparison {
            comparison_op(t@)
        } else if l is Additive {
            additive_op(t@)
        } else {
            multiplicative_op(t@)
        }),
{
    if l == Level::Comparison {
        if str_eq(t, "==") {
            Some(BinOperator::Eq)
        } else if str_eq(t, "!=") {
            Some(BinOperator::Ne)
        } else if str_eq(t, ">") {
            Some(BinOperator::Gt)
        } else if str_eq(t, "<") {
            Some(BinOperator::Lt)
        } else if str_eq(t, ">=") {
            Some(BinOperator::Ge)
        } else if str_eq(t, "<=") {
            Some(BinOperator::Le)
        } else {
            None
        }
    } else if l == Level::Additive {
        if str_eq(t, "+") {
            Some(BinOperator::Add)
        } else if str_eq(t, "-") {
            Some(BinOperator::Sub)
        } else {
            None
        }
    } else {
        if str_eq(t, "*") {
            Some(BinOperator::Mul)
        } else if str_eq(t, "/") {
            Some(BinOperator::Div)
        } else if str_eq(t, "%") {
            Some(BinOperator::Mod)
        } else {
            None
        }
    }
}

fn number_exec(n: &SyntaxNode) -> (r: Result<Expr, String>)
    ensures
        res_v(r) == number_of(*n),
{
    let cs = chars_of(n.text.as_str());
    assert(cs@.subrange(0, cs@.len() as int) == cs@);
    if crate::text::find_char_from(&cs, '.', 0).is_some() {
        match &n.float {
            Some(f) => Ok(Expr::Float(crate::json::clone_float(f))),
            None => Err(owned("invalid float literal")),
        }
    } else {
        match parse_i64(n.text.as_str()) {
            Ok(v) => Ok(Expr::Int(v)),
            Err(e) => Err(e),
        }
    }
}

fn literal_exec(t: &str) -> (r: Option<String>)
    ensures
        match literal_contents(t@) {
            Some(c) => r matches Some(x) && x@ == c,
            None => r is None,
        },
{
    let cs = chars_of(t);
    let n = cs.len();
    if n >= 2 && (cs[0] as u32) < 0x80 && (cs[n - 1] as u32) < 0x80 {
        Some(string_of(crate::text::slice_vec(&cs, 1, n - 1).as_slice()))
    } else {
        None
    }
}

/// The expression of a tree node at a level of the grammar.
pub fn expr_from_tree(l: Level, n: &SyntaxNode) -> (r: Result<Expr, String>)
    ensures
        res_v(r) == expr_at(l, *n),
    decreases n, 1nat,
{
    let cs = &n.children;
    match l {
        Level::Expression => {
            if cs.len() == 0 {
                return Err(malformed_error());
            }
            proof {
                lemma_child(*n, 0);
            }
            expr_from_tree(Level::Or, &cs[0])
        },
        Level::Or | Level::And | Level::Additive | Level::Multiplicative | Level::Accessor => {
            let sub = match l {
                Level::Or => Level::And,
                Level::And => Level::Not,
                Level::Additive => Level::Multiplicative,
                Level::Multiplicative => Level::Unary,
                _ => Level::Atom,
            };
            if cs.len() == 0 {
                return Err(malformed_error());
            }
            proof {
                lemma_child(*n, 0);
            }
            match expr_from_tree(sub, &cs[0]) {
                Ok(first) => fold_from_tree(l, n, first),
                Err(e) => Err(e),
            }
        },
        Level::Not | Level::Unary => {
            let neg = l == Level::Unary;
            if cs.len() == 2 {
                proof {
                    lemma_child(*n, 1);
                }
                match expr_from_tree(l, &cs[1]) {
                    Ok(x) => Ok(Expr::UnaryOp {
                        op: if neg {
                            UnaryOperator::Neg
                        } else {
                            UnaryOperator::Not
                        },
                        expr: Box::new(x),
                    }),
                    Err(e) => Err(e),
                }
            } else if cs.len() == 0 {
                Err(malformed_error())
            } else {
                proof {
                    lemma_child(*n, 0);
                }
                expr_from_tree(
                    if neg {
                        Level::Accessor
                    } else {
                        Level::Comparison
                    },
                    &cs[0],
                )
            }
        },
        Level::Comparison => {
            if cs.len() == 0 {
                return Err(malformed_error());
            }
            proof {
                lemma_child(*n, 0);
            }
            let left = match expr_from_tree(Level::Additive, &cs[0]) {
                Ok(x) => x,
                Err(e) => {
                    return Err(e);
                },
            };
            if cs.len() >= 3 {
                match op_of(Level::Comparison, cs[1].text.as_str()) {
                    None => Err(text_and("Unknown comparison op: ", cs[1].text.as_str())),
                    Some(op) => {
                        proof {
                            lemma_child(*n, 2);
                        }
                        match expr_from_tree(Level::Additive, &cs[2]) {
                            Ok(right) => Ok(bin_e(left, op, right)),
                            Err(e) => Err(e),
                        }
                    },
                }
            } else {
                Ok(left)
            }
        },
        Level::Atom => {
            if cs.len() == 0 {
                return Err(malformed_error());
            }
            proof {
                lemma_child(*n, 0);
            }
            let inner = &cs[0];
            match inner.rule {
                SyntaxRule::Expression => expr_from_tree(Level::Expression, inner),
                SyntaxRule::FuncCall => {
                    if inner.children.len() == 0 {
                        return Err(malformed_error());
                    }
                    match args_from_tree(inner) {
                        Ok(args) => Ok(Expr::FuncCall { name: owned(inner.children[0].text.as_str()), args }),
                        Err(e) => Err(e),
                    }
                },
                SyntaxRule::StringLiteral => match literal_exec(inner.text.as_str()) {
                    Some(c) => Ok(Expr::Str(c)),
                    None => Err(malformed_error()),
                },
                SyntaxRule::Number => number_exec(inner),
                SyntaxRule::Boolean => Ok(Expr::Bool(str_eq(inner.text.as_str(), "true"))),
                SyntaxRule::Address => Ok(Expr::Address(owned(inner.text.as_str()))),
                SyntaxRule::Identifier => if str_eq(inner.text.as_str(), "null") {
                    Ok(Expr::Null)
                } else {
                    Ok(Expr::Identifier(owned(inner.text.as_str())))
                },
                _ => Err(text_and("Unexpected atom: ", rule_label(inner.rule))),
            }
        },
    }
}

fn fold_from_tree(l: Level, n: &SyntaxNode, first: Expr) -> (r: Result<Expr, String>)
    requires
        l is Or || l is And || l is Additive || l is Multiplicative || l is Accessor,
    ensures
        res_v(r) == fold_at(l, n.children@, 1, expr_v(first)),
    decreases n, 0nat,
{
    let cs = &n.children;
    let mut acc = first;
    let mut k: usize = 1;
    while k < cs.len()
        invariant
            1 <= k,
            cs == &n.children,
            l is Or || l is And || l is Additive || l is Multiplicative || l is Accessor,
            fold_at(l, n.children@, 1, expr_v(first)) == fold_at(l, n.children@, k as int, expr_v(acc)),
        decreases cs@.len() - k,
    {
        proof {
            lemma_child(*n, k as int);
        }
        if l == Level::Or || l == Level::And {
            let sub = if l == Level::Or {
                Level::And
            } else {
                Level::Not
            };
            match expr_from_tree(sub, &cs[k]) {
                Ok(r) => {
                    acc = bin_e(acc, if l == Level::Or {
                        BinOperator::Or
                    } else {
                        BinOperator::And
                    }, r);
                },
                Err(e) => {
                    return Err(e);
                },
            }
            k = k + 1;
        } else if l == Level::Additive || l == Level::Multiplicative {
            match op_of(l, cs[k].text.as_str()) {
                None => {
                    return Err(
                        text_and(
                            if l == Level::Additive {
                                "Unknown additive op: "
                            } else {
                                "Unknown multiplicative op: "
                            },
                            cs[k].text.as_str(),
                        ),
                    );
                },
                Some(o) => {
                    if k + 1 >= cs.len() {
                        return Err(malformed_error());
                    }
                    proof {
                        lemma_child(*n, k + 1);
                    }
                    let sub = if l == Level::Additive {
                        Level::Multiplicative
                    } else {
                        Level::Unary
                    };
                    match expr_from_tree(sub, &cs[k + 1]) {
                        Ok(r) => {
                            acc = bin_e(acc, o, r);
                        },
                        Err(e) => {
                            return Err(e);
                        },
                    }
                    k = k + 2;
                },
            }
        } else {
            let a = &cs[k];
            match a.rule {
                SyntaxRule::IndexAccess => {
                    if a.children.len() == 0 {
                        return Err(malformed_error());
                    }
                    proof {
                        lemma_child(*a, 0);
                    }
                    match expr_from_tree(Level::Expression, &a.children[0]) {
                        Ok(key) => {
                            acc = Expr::Index { object: Box::new(acc), key: Box::new(key) };
                        },
                        Err(e) => {
                            return Err(e);
                        },
                    }
                },
                SyntaxRule::DotAccess => {
                    if a.children.len() == 0 {
                        return Err(malformed_error());
                    }
                    acc = Expr::DotAccess { object: Box::new(acc), field: owned(a.children[0].text.as_str()) };
                },
                _ => {},
            }
            k = k + 1;
        }
    }
    Ok(acc)
}

fn args_from_tree(call: &SyntaxNode) -> (r: Result<Vec<Expr>, String>)
    ensures
        match args_at(call.children@, 1) {
            Ok(xs) => r matches Ok(v) && exprs_v(v@) == xs,
            Err(e) => r matches Err(m) && m@ == e,
        },
    decreases call, 0nat,
{
    let cs = &call.children;
    let mut out: Vec<Expr> = Vec::new();
    let mut k: usize = 1;
    proof {
        match args_at(call.children@, 1) {
            Ok(xs) => {
                assert(Seq::<ExprV>::empty() + xs =~= xs);
            },
            _ => {},
        }
    }
    assert(exprs_v(out@) =~= Seq::<ExprV>::empty());
    while k < cs.len()
        invariant
            1 <= k,
            cs == &call.children,
            args_at(call.children@, 1) == match args_at(call.children@, k as int) {
                Ok(rest) => Ok(exprs_v(out@) + rest),
                Err(e) => Err(e),
            },
        decreases cs@.len() - k,
    {
        proof {
            lemma_child(*call, k as int);
        }
        match expr_from_tree(Level::Expression, &cs[k]) {
            Ok(x) => {
                let ghost before = out@;
                out.push(x);
                proof {
                    assert(out@.subrange(0, out@.len() - 1) == before);
                    assert(exprs_v(out@) == exprs_v(before).push(expr_v(x)));
                    match args_at(call.children@, k + 1) {
                        Ok(rest) => {
                            assert(exprs_v(before) + (seq![expr_v(x)] + rest) =~= exprs_v(out@) + rest);
                        },
                        _ => {},
                    }
                }
            },
            Err(e) => {
                return Err(e);
            },
        }
        k = k + 1;
    }
    proof {
        assert(exprs_v(out@) + Seq::<ExprV>::empty() =~= exprs_v(out@));
    }
    Ok(out)
}

/// The name of a rule in the grammar.
pub fn rule_label(r: SyntaxRule) -> (s: &'static str)
    ensures
        s@ == rule_name(r),
{
    match r {
        SyntaxRule::Program => "program",
        SyntaxRule::RootBlock => "root_block",
        SyntaxRule::Block => "block",
        SyntaxRule::ContextBlock => "context_block",
        SyntaxRule::CtxPair => "ctx_pair",
        SyntaxRule::ActionNode => "action_node",
        SyntaxRule::ActionContent => "action_content",
        SyntaxRule::MetaBlock => "meta_block",
        SyntaxRule::InBlock => "in_block",
        SyntaxRule::RefPair => "ref_pair",
        SyntaxRule::ValuePair => "value_pair",
        SyntaxRule::Alias => "alias",
        SyntaxRule::ConditionBlock => "condition_block",
        SyntaxRule::ExecBlock => "exec_block",
        SyntaxRule::OutBlock => "out_block",
        SyntaxRule::TypePair => "type_pair",
        SyntaxRule::ValBlock => "val_block",
        SyntaxRule::Assertion => "assertion",
        SyntaxRule::HaltAction => "halt_action",
        SyntaxRule::RequestBlock => "request_block",
        SyntaxRule::RequestContent => "request_content",
        SyntaxRule::SenderField => "sender_field",
        SyntaxRule::TargetField => "target_field",
        SyntaxRule::ContextField => "context_field",
        SyntaxRule::InstructionsField => "instructions_field",
        SyntaxRule::FailureBlock => "failure_block",
        SyntaxRule::ParallelBlock => "parallel_block",
        SyntaxRule::Pair => "pair",
        SyntaxRule::Value => "value",
        SyntaxRule::Hash => "hash",
        SyntaxRule::Address => "address",
        SyntaxRule::Identifier => "identifier",
        SyntaxRule::StringLiteral => "string_literal",
        SyntaxRule::Number => "number",
        SyntaxRule::Boolean => "boolean",
        SyntaxRule::Expression => "expression",
        SyntaxRule::OrExpr => "or_expr",
        SyntaxRule::AndExpr => "and_expr",
        SyntaxRule::NotExpr => "not_expr",
        SyntaxRule::Comparison => "comparison",
        SyntaxRule::Additive => "additive",
        SyntaxRule::Multiplicative => "multiplicative",
        SyntaxRule::Unary => "unary",
        SyntaxRule::Accessor => "accessor",
        SyntaxRule::IndexAccess => "index_access",
        SyntaxRule::DotAccess => "dot_access",
        SyntaxRule::Atom => "atom",
        SyntaxRule::FuncCall => "func_call",
        SyntaxRule::Other => "other",
    }
}


// ---------------------------------------------------------------------------
// Values and pairs
// ---------------------------------------------------------------------------

/// Mathematical view of a literal value.
pub enum ValueV {
    Null,
    Bool(bool),
    Int(i64),
    Float(u64, Seq<char>),
    Str(Seq<char>),
    Json(JVal),
}

pub open spec fn value_v(v: AetherValue) -> ValueV {
    match v {
        AetherValue::Null => ValueV::Null,
        AetherValue::Bool(b) => ValueV::Bool(b),
        AetherValue::Int(i) => ValueV::Int(i),
        AetherValue::Float(f) => ValueV::Float(f.bits, f.text@),
        AetherValue::String(s) => ValueV::Str(s@),
        AetherValue::Json(j) => ValueV::Json(j@),
    }
}

pub open spec fn kvs_v(s: Seq<(String, AetherValue)>) -> Seq<(Seq<char>, ValueV)> {
    s.map_values(|p: (String, AetherValue)| (p.0@, value_v(p.1)))
}

/// The value of a `value` node: a string literal's contents, a number, a
/// boolean, a hash or address as a string, `null`, or any other text as a
/// string.
pub open spec fn value_at(n: SyntaxNode) -> Result<ValueV, Seq<char>> {
    let cs = n.children@;
    if cs.len() == 0 {
        Err(malformed())
    } else {
        let inner = cs[0];
        match inner.rule {
            SyntaxRule::StringLiteral => match literal_contents(inner.text@) {
                Some(c) => Ok(ValueV::Str(c)),
                None => Err(malformed()),
            },
            SyntaxRule::Number => match number_of(inner) {
                Ok(ExprV::Float(b, t)) => Ok(ValueV::Float(b, t)),
                Ok(ExprV::Int(i)) => Ok(ValueV::Int(i)),
                Ok(_) => Err(malformed()),
                Err(e) => Err(e),
            },
            SyntaxRule::Boolean => Ok(ValueV::Bool(inner.text@ == "true"@)),
            SyntaxRule::Hash | SyntaxRule::Address => Ok(ValueV::Str(inner.text@)),
            _ => if inner.text@ == "null"@ {
                Ok(ValueV::Null)
            } else {
                Ok(ValueV::Str(inner.text@))
            },
        }
    }
}

/// A `key: value` pair.
pub open spec fn pair_at(n: SyntaxNode) -> Result<(Seq<char>, ValueV), Seq<char>> {
    let cs = n.children@;
    if cs.len() < 2 {
        Err(malformed())
    } else {
        match value_at(cs[1]) {
            Ok(v) => Ok((cs[0].text@, v)),
            Err(e) => Err(e),
        }
    }
}

/// The index of the first pair with this key, from `j` on.
pub open spec fn kv_index(s: Seq<(Seq<char>, ValueV)>, key: Seq<char>, j: int) -> Option<int>
    decreases s.len() - j,
{
    if j < 0 || j >= s.len() {
        None
    } else if s[j].0 == key {
        Some(j)
    } else {
        kv_index(s, key, j + 1)
    }
}

/// Inserting into key-value pairs as a map does: a key already present gets
/// the new value in place; a new key comes last.
pub open spec fn kv_insert(s: Seq<(Seq<char>, ValueV)>, key: Seq<char>, v: ValueV) -> Seq<(Seq<char>, ValueV)> {
    match kv_index(s, key, 0) {
        Some(i) => s.update(i, (key, v)),
        None => s.push((key, v)),
    }
}

proof fn lemma_kv_index(s: Seq<(Seq<char>, ValueV)>, key: Seq<char>, j: int)
    requires
        0 <= j,
    ensures
        match kv_index(s, key, j) {
            Some(i) => j <= i < s.len() && s[i].0 == key,
            None => forall|m: int| j <= m < s.len() ==> s[m].0 != key,
        },
    decreases s.len() - j,
{
    if j < s.len() && s[j].0 != key {
        lemma_kv_index(s, key, j + 1);
    }
}

fn kv_insert_exec(data: &mut Vec<(String, AetherValue)>, k: String, v: AetherValue)
    ensures
        kvs_v(final(data)@) == kv_insert(kvs_v(old(data)@), k@, value_v(v)),
{
    let ghost s = kvs_v(data@);
    proof {
        lemma_kv_index(s, k@, 0);
    }
    let mut i: usize = 0;
    while i < data.len()
        invariant
            0 <= i <= data@.len(),
            s == kvs_v(data@),
            data@ == old(data)@,
            s.len() == data@.len(),
            kv_index(s, k@, 0) == kv_index(s, k@, i as int),
        decreases data@.len() - i,
    {
        assert(s[i as int].0 == data@[i as int].0@);
        if str_eq(data[i].0.as_str(), k.as_str()) {
            let ghost kk = k@;
            let ghost vv = value_v(v);
            assert(kv_index(s, kk, i as int) == Some(i as int));
            data.set(i, (k, v));
            assert(kvs_v(data@) =~= s.update(i as int, (kk, vv)));
            return;
        }
        i = i + 1;
    }
    let ghost kk = k@;
    let ghost vv = value_v(v);
    data.push((k, v));
    assert(kvs_v(data@) =~= s.push((kk, vv)));
}

fn value_from_tree(n: &SyntaxNode) -> (r: Result<AetherValue, String>)
    ensures
        match value_at(*n) {
            Ok(x) => r matches Ok(v) && value_v(v) == x,
            Err(e) => r matches Err(m) && m@ == e,
        },
{
    if n.children.len() == 0 {
        return Err(malformed_error());
    }
    let inner = &n.children[0];
    match inner.rule {
        SyntaxRule::StringLiteral => match literal_exec(inner.text.as_str()) {
            Some(c) => Ok(AetherValue::String(c)),
            None => Err(malformed_error()),
        },
        SyntaxRule::Number => match number_exec(inner) {
            Ok(Expr::Float(f)) => Ok(AetherValue::Float(f)),
            Ok(Expr::Int(i)) => Ok(AetherValue::Int(i)),
            Ok(_) => Err(malformed_error()),
            Err(e) => Err(e),
        },
        SyntaxRule::Boolean => Ok(AetherValue::Bool(str_eq(inner.text.as_str(), "true"))),
        SyntaxRule::Hash | SyntaxRule::Address => Ok(AetherValue::String(owned(inner.text.as_str()))),
        _ => if str_eq(inner.text.as_str(), "null") {
            Ok(AetherValue::Null)
        } else {
            Ok(AetherValue::String(owned(inner.text.as_str())))
        },
    }
}

fn pair_from_tree(n: &SyntaxNode) -> (r: Result<(String, AetherValue), String>)
    ensures
        match pair_at(*n) {
            Ok((k, x)) => r matches Ok((k2, v)) && k2@ == k && value_v(v) == x,
            Err(e) => r matches Err(m) && m@ == e,
        },
{
    if n.children.len() < 2 {
        return Err(malformed_error());
    }
    match value_from_tree(&n.children[1]) {
        Ok(v) => Ok((owned(n.children[0].text.as_str()), v)),
        Err(e) => Err(e),
    }
}

/// Pairs of the children from `k` on that have the given rule, as a map.
pub open spec fn pairs_fold(cs: Seq<SyntaxNode>, rule: SyntaxRule, k: int, acc: Seq<(Seq<char>, ValueV)>) -> Result<Seq<(Seq<char>, ValueV)>, Seq<char>>
    decreases cs.len() - k,
{
    if k < 0 || k >= cs.len() {
        Ok(acc)
    } else if cs[k].rule != rule {
        pairs_fold(cs, rule, k + 1, acc)
    } else {
        match pair_at(cs[k]) {
            Ok((key, v)) => pairs_fold(cs, rule, k + 1, kv_insert(acc, key, v)),
            Err(e) => Err(e),
        }
    }
}

fn pairs_from_tree(cs: &Vec<SyntaxNode>, rule: SyntaxRule, from: usize) -> (r: Result<Vec<(String, AetherValue)>, String>)
    ensures
        match pairs_fold(cs@, rule, from as int, Seq::empty()) {
            Ok(x) => r matches Ok(v) && kvs_v(v@) == x,
            Err(e) => r matches Err(m) && m@ == e,
        },
{
    let mut out: Vec<(String, AetherValue)> = Vec::new();
    let mut k: usize = from;
    assert(kvs_v(out@) =~= Seq::<(Seq<char>, ValueV)>::empty());
    while k < cs.len()
        invariant
            from <= k || k == from,
            pairs_fold(cs@, rule, from as int, Seq::empty()) == pairs_fold(cs@, rule, k as int, kvs_v(out@)),
        decreases cs@.len() - k,
    {
        if cs[k].rule == rule {
            match pair_from_tree(&cs[k]) {
                Ok((key, v)) => {
                    kv_insert_exec(&mut out, key, v);
                },
                Err(e) => {
                    return Err(e);
                },
            }
        }
        k = k + 1;
    }
    Ok(out)
}

// ---------------------------------------------------------------------------
// Node sections
// ---------------------------------------------------------------------------

/// Count of leading double quotes.
pub open spec fn lead_quotes(s: Seq<char>) -> nat
    decreases s.len(),
{
    if s.len() == 0 || s[0] != '"' {
        0
    } else {
        1 + lead_quotes(s.drop_first())
    }
}

/// Count of trailing double quotes.
pub open spec fn trail_quotes(s: Seq<char>) -> nat
    decreases s.len(),
{
    if s.len() == 0 || s.last() != '"' {
        0
    } else {
        1 + trail_quotes(s.drop_last())
    }
}

proof fn lemma_quotes(s: Seq<char>)
    ensures
        lead_quotes(s) <= s.len(),
        trail_quotes(s) <= s.len(),
    decreases s.len(),
{
    if s.len() > 0 {
        lemma_quotes(s.drop_first());
        lemma_quotes(s.drop_last());
    }
}

/// `str::trim_matches('"')`: the text without its leading and trailing quotes.
pub open spec fn strip_quotes(s: Seq<char>) -> Seq<char> {
    let t = s.subrange(lead_quotes(s) as int, s.len() as int);
    t.subrange(0, t.len() - trail_quotes(t))
}

fn strip_quotes_exec(s: &str) -> (r: String)
    ensures
        r@ == strip_quotes(s@),
{
    let cs = chars_of(s);
    proof {
        lemma_quotes(cs@);
    }
    let mut a: usize = 0;
    assert(cs@.subrange(0, cs@.len() as int) == cs@);
    while a < cs.len() && cs[a] == '"'
        invariant
            0 <= a <= cs@.len(),
            lead_quotes(cs@) == a + lead_quotes(cs@.subrange(a as int, cs@.len() as int)),
        decreases cs@.len() - a,
    {
        assert(cs@.subrange(a as int, cs@.len() as int).drop_first() == cs@.subrange(a + 1, cs@.len() as int));
        a = a + 1;
    }
    let t = crate::text::slice_vec(&cs, a, cs.len());
    proof {
        lemma_quotes(t@);
    }
    let mut b: usize = t.len();
    assert(t@.subrange(0, t@.len() as int) == t@);
    while b > 0 && t[b - 1] == '"'
        invariant
            0 <= b <= t@.len(),
            trail_quotes(t@) == (t@.len() - b) + trail_quotes(t@.subrange(0, b as int)),
        decreases b,
    {
        assert(t@.subrange(0, b as int).drop_last() == t@.subrange(0, b - 1));
        b = b - 1;
    }
    string_of(crate::text::slice_vec(&t, 0, b).as_slice())
}

/// Mathematical view of META data.
pub struct MetaV {
    pub intent: Option<Seq<char>>,
    pub safety: Option<SafetyLevel>,
    pub extra: Seq<(Seq<char>, ValueV)>,
}

pub open spec fn meta_v(m: MetaBlock) -> MetaV {
    MetaV {
        intent: match m.intent {
            Some(s) => Some(s@),
            None => None,
        },
        safety: m.safety,
        extra: kvs_v(m.extra@),
    }
}

/// One META pair: `_intent` sets the intent (the string without quotes, none
/// for another value); `_safety` with a string sets the safety level it names
/// (none when it names no level); other keys are kept as extra pairs.
pub open spec fn meta_apply(m: MetaV, key: Seq<char>, v: ValueV) -> MetaV {
    if key == "_intent"@ {
        MetaV {
            intent: match v {
                ValueV::Str(s) => Some(strip_quotes(s)),
                _ => None,
            },
            ..m
        }
    } else if key == "_safety"@ {
        match v {
            ValueV::Str(s) => MetaV { safety: safety_from_tag(unicode_lower(strip_quotes(s))), ..m },
            _ => m,
        }
    } else {
        MetaV { extra: kv_insert(m.extra, key, v), ..m }
    }
}

pub open spec fn meta_fold(cs: Seq<SyntaxNode>, k: int, m: MetaV) -> Result<MetaV, Seq<char>>
    decreases cs.len() - k,
{
    if k < 0 || k >= cs.len() {
        Ok(m)
    } else if cs[k].rule != SyntaxRule::Pair {
        meta_fold(cs, k + 1, m)
    } else {
        match pair_at(cs[k]) {
            Ok((key, v)) => meta_fold(cs, k + 1, meta_apply(m, key, v)),
            Err(e) => Err(e),
        }
    }
}

/// The message for a META block without a valid safety level.
pub open spec fn safety_required() -> Seq<char> {
    "A ::META block requires a valid _safety declaration"@
}

/// A META block: its pairs folded in order; a block that ends without a valid
/// safety level (none given, or the last one given names no level) is refused.
pub open spec fn meta_at(n: SyntaxNode) -> Result<MetaV, Seq<char>> {
    match meta_fold(n.children@, 0, MetaV { intent: None, safety: None, extra: Seq::empty() }) {
        Ok(m) => if m.safety is None {
            Err(safety_required())
        } else {
            Ok(m)
        },
        Err(e) => Err(e),
    }
}

fn meta_from_tree(n: &SyntaxNode) -> (r: Result<MetaBlock, String>)
    ensures
        match meta_at(*n) {
            Ok(x) => r matches Ok(m) && meta_v(m) == x,
            Err(e) => r matches Err(m) && m@ == e,
        },
{
    let mut m = MetaBlock { intent: None, safety: None, extra: Vec::new() };
    assert(kvs_v(m.extra@) =~= Seq::<(Seq<char>, ValueV)>::empty());
    let cs = &n.children;
    let mut k: usize = 0;
    while k < cs.len()
        invariant
            cs == &n.children,
            meta_fold(cs@, 0, MetaV { intent: None, safety: None, extra: Seq::empty() }) == meta_fold(cs@, k as int, meta_v(m)),
        decreases cs@.len() - k,
    {
        if cs[k].rule == SyntaxRule::Pair {
            match pair_from_tree(&cs[k]) {
                Ok((key, v)) => {
                    if str_eq(key.as_str(), "_intent") {
                        m.intent = match &v {
                            AetherValue::String(s) => Some(strip_quotes_exec(s.as_str())),
                            _ => None,
                        };
                    } else if str_eq(key.as_str(), "_safety") {
                        match &v {
                            AetherValue::String(s) => {
                                let cleaned = strip_quotes_exec(s.as_str());
                                m.safety = SafetyLevel::from_str(cleaned.as_str());
                            },
                            _ => {},
                        }
                    } else {
                        kv_insert_exec(&mut m.extra, key, v);
                    }
                },
                Err(e) => {
                    return Err(e);
                },
            }
        }
        k = k + 1;
    }
    if m.safety.is_none() {
        return Err(owned("A ::META block requires a valid _safety declaration"));
    }
    Ok(m)
}

/// What a failed assertion does: HALT, RETRY (with the count in parentheses
/// when it reads as a `u32`) or WARN, by the start of the action's text.
pub open spec fn halt_at(n: SyntaxNode) -> Result<HaltAction, Seq<char>> {
    let t = n.text@;
    if crate::text::seq_starts_with(t, "HALT"@) {
        Ok(HaltAction::Halt)
    } else if crate::text::seq_starts_with(t, "RETRY"@) {
        Ok(HaltAction::Retry(if n.children@.len() > 0 { u32_literal_value(n.children@[0].text@) } else { None }))
    } else if crate::text::seq_starts_with(t, "WARN"@) {
        Ok(HaltAction::Warn)
    } else {
        Err("Unknown halt action: "@ + t)
    }
}

fn halt_from_tree(n: &SyntaxNode) -> (r: Result<HaltAction, String>)
    ensures
        match halt_at(*n) {
            Ok(h) => r == Ok::<HaltAction, String>(h),
            Err(e) => r matches Err(m) && m@ == e,
        },
{
    let t = n.text.as_str();
    if crate::text::starts_with(t, "HALT") {
        Ok(HaltAction::Halt)
    } else if crate::text::starts_with(t, "RETRY") {
        let count = if n.children.len() > 0 {
            parse_u32(n.children[0].text.as_str())
        } else {
            None
        };
        Ok(HaltAction::Retry(count))
    } else if crate::text::starts_with(t, "WARN") {
        Ok(HaltAction::Warn)
    } else {
        Err(text_and("Unknown halt action: ", t))
    }
}


/// Mathematical view of an input's source.
pub enum SourceV {
    Ref(Seq<char>),
    Literal(ValueV),
}

pub struct InputV {
    pub address: Seq<char>,
    pub alias: Option<Seq<char>>,
    pub source: SourceV,
}

pub open spec fn opt_v(o: Option<String>) -> Option<Seq<char>> {
    match o {
        Some(s) => Some(s@),
        None => None,
    }
}

pub open spec fn input_v(b: InputBinding) -> InputV {
    InputV {
        address: b.address@,
        alias: opt_v(b.alias),
        source: match b.source {
            InputSource::Ref(a) => SourceV::Ref(a@),
            InputSource::Literal(v) => SourceV::Literal(value_v(v)),
        },
    }
}

pub struct OutputV {
    pub address: Seq<char>,
    pub declared_type: AetherType,
}

pub struct AssertionV {
    pub condition: ExprV,
    pub on_fail: HaltAction,
}

/// The alias and reference target among the parts of a `Ref` pair.
pub open spec fn ref_parts(subs: Seq<SyntaxNode>, j: int, alias: Option<Seq<char>>, target: Seq<char>) -> Result<(Option<Seq<char>>, Seq<char>), Seq<char>>
    decreases subs.len() - j,
{
    if j < 0 || j >= subs.len() {
        Ok((alias, target))
    } else {
        match subs[j].rule {
            SyntaxRule::Alias => if subs[j].children@.len() == 0 {
                Err(malformed())
            } else {
                ref_parts(subs, j + 1, Some(subs[j].children@[0].text@), target)
            },
            SyntaxRule::Address => ref_parts(subs, j + 1, alias, subs[j].text@),
            _ => ref_parts(subs, j + 1, alias, target),
        }
    }
}

/// The bindings of an `::IN` block and the addresses its references read.
pub open spec fn in_fold(cs: Seq<SyntaxNode>, k: int, bs: Seq<InputV>) -> Result<Seq<InputV>, Seq<char>>
    decreases cs.len() - k,
{
    if k < 0 || k >= cs.len() {
        Ok(bs)
    } else {
        let c = cs[k];
        match c.rule {
            SyntaxRule::RefPair => if c.children@.len() == 0 {
                Err(malformed())
            } else {
                match ref_parts(c.children@, 1, None, Seq::empty()) {
                    Ok((alias, target)) => in_fold(
                        cs,
                        k + 1,
                        bs.push(InputV { address: c.children@[0].text@, alias, source: SourceV::Ref(target) }),
                    ),
                    Err(e) => Err(e),
                }
            },
            SyntaxRule::ValuePair => if c.children@.len() < 2 {
                Err(malformed())
            } else {
                match value_at(c.children@[1]) {
                    Ok(v) => in_fold(
                        cs,
                        k + 1,
                        bs.push(InputV { address: c.children@[0].text@, alias: None, source: SourceV::Literal(v) }),
                    ),
                    Err(e) => Err(e),
                }
            },
            _ => in_fold(cs, k + 1, bs),
        }
    }
}

/// The bindings of an `::OUT` block; an unknown type name is an error.
pub open spec fn out_fold(cs: Seq<SyntaxNode>, k: int, os: Seq<OutputV>) -> Result<Seq<OutputV>, Seq<char>>
    decreases cs.len() - k,
{
    if k < 0 || k >= cs.len() {
        Ok(os)
    } else if cs[k].rule != SyntaxRule::TypePair {
        out_fold(cs, k + 1, os)
    } else if cs[k].children@.len() < 2 {
        Err(malformed())
    } else {
        let t = cs[k].children@[1].text@;
        match aether_type_from_name(t) {
            Some(ty) => out_fold(cs, k + 1, os.push(OutputV { address: cs[k].children@[0].text@, declared_type: ty })),
            None => Err("Unknown type: "@ + t),
        }
    }
}

/// The assertions of a `::VALIDATE` block.
pub open spec fn val_fold(cs: Seq<SyntaxNode>, k: int, asr: Seq<AssertionV>) -> Result<Seq<AssertionV>, Seq<char>>
    decreases cs.len() - k,
{
    if k < 0 || k >= cs.len() {
        Ok(asr)
    } else if cs[k].rule != SyntaxRule::Assertion {
        val_fold(cs, k + 1, asr)
    } else if cs[k].children@.len() < 2 {
        Err(malformed())
    } else {
        match expr_at(Level::Expression, cs[k].children@[0]) {
            Err(e) => Err(e),
            Ok(c) => match halt_at(cs[k].children@[1]) {
                Ok(h) => val_fold(cs, k + 1, asr.push(AssertionV { condition: c, on_fail: h })),
                Err(e) => Err(e),
            },
        }
    }
}

/// Mathematical view of an action node.
pub struct NodeV {
    pub id: Seq<char>,
    pub meta: Option<MetaV>,
    pub inputs: Option<Seq<InputV>>,
    pub condition: Option<ExprV>,
    pub language: GuestLang,
    pub code: Seq<char>,
    pub outputs: Option<Seq<OutputV>>,
    pub validation: Option<Seq<AssertionV>>,
    pub depends_on: Seq<Seq<char>>,
}

pub open spec fn node_v(n: ActionNode) -> NodeV {
    NodeV {
        id: n.id@,
        meta: match n.meta {
            Some(m) => Some(meta_v(m)),
            None => None,
        },
        inputs: match n.inputs {
            Some(bs) => Some(bs@.map_values(|b: InputBinding| input_v(b))),
            None => None,
        },
        condition: match n.condition {
            Some(c) => Some(expr_v(c)),
            None => None,
        },
        language: n.language,
        code: n.code@,
        outputs: match n.outputs {
            Some(os) => Some(os@.map_values(|o: OutputBinding| OutputV { address: o.address@, declared_type: o.declared_type })),
            None => None,
        },
        validation: match n.validation {
            Some(asr) => Some(asr@.map_values(|a: Assertion| AssertionV { condition: expr_v(a.condition), on_fail: a.on_fail })),
            None => None,
        },
        depends_on: n.depends_on@.map_values(|d: String| d@),
    }
}

/// One section of an action node: META, IN, a condition, EXEC (language and
/// trimmed code), OUT or VALIDATE; a later section of a kind replaces an
/// earlier one. The node's dependencies are left for its root (`root_at`).
pub open spec fn part_apply(nv: NodeV, part: SyntaxNode) -> Result<NodeV, Seq<char>> {
    let cs = part.children@;
    match part.rule {
        SyntaxRule::MetaBlock => match meta_at(part) {
            Ok(m) => Ok(NodeV { meta: Some(m), ..nv }),
            Err(e) => Err(e),
        },
        SyntaxRule::InBlock => match in_fold(cs, 0, Seq::empty()) {
            Ok(bs) => Ok(NodeV { inputs: Some(bs), ..nv }),
            Err(e) => Err(e),
        },
        SyntaxRule::ConditionBlock => if cs.len() == 0 {
            Err(malformed())
        } else {
            match expr_at(Level::Expression, cs[0]) {
                Ok(c) => Ok(NodeV { condition: Some(c), ..nv }),
                Err(e) => Err(e),
            }
        },
        SyntaxRule::ExecBlock => if cs.len() < 2 {
            Err(malformed())
        } else {
            match guest_lang_from_name(cs[0].text@) {
                Some(l) => Ok(NodeV { language: l, code: trim(cs[1].text@), ..nv }),
                None => Err("Unknown language: "@ + cs[0].text@),
            }
        },
        SyntaxRule::OutBlock => match out_fold(cs, 0, Seq::empty()) {
            Ok(os) => Ok(NodeV { outputs: Some(os), ..nv }),
            Err(e) => Err(e),
        },
        SyntaxRule::ValBlock => match val_fold(cs, 0, Seq::empty()) {
            Ok(a) => Ok(NodeV { validation: Some(a), ..nv }),
            Err(e) => Err(e),
        },
        _ => Ok(nv),
    }
}

pub open spec fn parts_fold(parts: Seq<SyntaxNode>, k: int, nv: NodeV) -> Result<NodeV, Seq<char>>
    decreases parts.len() - k,
{
    if k < 0 || k >= parts.len() {
        Ok(nv)
    } else {
        match part_apply(nv, parts[k]) {
            Ok(n2) => parts_fold(parts, k + 1, n2),
            Err(e) => Err(e),
        }
    }
}

pub open spec fn node_start(id: Seq<char>) -> NodeV {
    NodeV {
        id,
        meta: None,
        inputs: None,
        condition: None,
        language: GuestLang::Python,
        code: Seq::empty(),
        outputs: None,
        validation: None,
        depends_on: Seq::empty(),
    }
}

/// An action node: its hash, then its sections in order (its dependencies
/// still empty).
pub open spec fn action_at(n: SyntaxNode) -> Result<NodeV, Seq<char>> {
    let cs = n.children@;
    if cs.len() < 2 {
        Err(malformed())
    } else {
        parts_fold(cs[1].children@, 0, node_start(cs[0].text@))
    }
}


fn ref_parts_exec(subs: &Vec<SyntaxNode>) -> (r: Result<(Option<String>, String), String>)
    ensures
        match ref_parts(subs@, 1, None, Seq::empty()) {
            Ok((a, t)) => r matches Ok((a2, t2)) && opt_v(a2) == a && t2@ == t,
            Err(e) => r matches Err(m) && m@ == e,
        },
{
    proof {
        reveal_strlit("");
    }
    let mut alias: Option<String> = None;
    let mut target = owned("");
    assert(target@ =~= Seq::<char>::empty());
    let mut j: usize = 1;
    while j < subs.len()
        invariant
            1 <= j,
            ref_parts(subs@, 1, None, Seq::empty()) == ref_parts(subs@, j as int, opt_v(alias), target@),
        decreases subs@.len() - j,
    {
        let sub = &subs[j];
        match sub.rule {
            SyntaxRule::Alias => {
                if sub.children.len() == 0 {
                    return Err(malformed_error());
                }
                alias = Some(owned(sub.children[0].text.as_str()));
            },
            SyntaxRule::Address => {
                target = owned(sub.text.as_str());
            },
            _ => {},
        }
        j = j + 1;
    }
    Ok((alias, target))
}

fn inputs_from_tree(cs: &Vec<SyntaxNode>) -> (r: Result<Vec<InputBinding>, String>)
    ensures
        match in_fold(cs@, 0, Seq::empty()) {
            Ok(bs) => r matches Ok(b2) && b2@.map_values(|b: InputBinding| input_v(b)) == bs,
            Err(e) => r matches Err(m) && m@ == e,
        },
{
    let mut bs: Vec<InputBinding> = Vec::new();
    assert(bs@.map_values(|b: InputBinding| input_v(b)) =~= Seq::<InputV>::empty());
    let mut k: usize = 0;
    while k < cs.len()
        invariant
            in_fold(cs@, 0, Seq::empty()) == in_fold(cs@, k as int, bs@.map_values(|b: InputBinding| input_v(b))),
        decreases cs@.len() - k,
    {
        let c = &cs[k];
        match c.rule {
            SyntaxRule::RefPair => {
                if c.children.len() == 0 {
                    return Err(malformed_error());
                }
                match ref_parts_exec(&c.children) {
                    Ok((alias, target)) => {
                        let ghost b0 = bs@.map_values(|b: InputBinding| input_v(b));
                        let b = InputBinding {
                            address: owned(c.children[0].text.as_str()),
                            alias,
                            source: InputSource::Ref(target),
                        };
                        let ghost bv = input_v(b);
                        bs.push(b);
                        assert(bs@.map_values(|b: InputBinding| input_v(b)) =~= b0.push(bv));
                    },
                    Err(e) => {
                        return Err(e);
                    },
                }
            },
            SyntaxRule::ValuePair => {
                if c.children.len() < 2 {
                    return Err(malformed_error());
                }
                match value_from_tree(&c.children[1]) {
                    Ok(v) => {
                        let ghost b0 = bs@.map_values(|b: InputBinding| input_v(b));
                        let b = InputBinding {
                            address: owned(c.children[0].text.as_str()),
                            alias: None,
                            source: InputSource::Literal(v),
                        };
                        let ghost bv = input_v(b);
                        bs.push(b);
                        assert(bs@.map_values(|b: InputBinding| input_v(b)) =~= b0.push(bv));
                    },
                    Err(e) => {
                        return Err(e);
                    },
                }
            },
            _ => {},
        }
        k = k + 1;
    }
    Ok(bs)
}

pub open spec fn outs_v(os: Seq<OutputBinding>) -> Seq<OutputV> {
    os.map_values(|o: OutputBinding| OutputV { address: o.address@, declared_type: o.declared_type })
}

fn outputs_from_tree(cs: &Vec<SyntaxNode>) -> (r: Result<Vec<OutputBinding>, String>)
    ensures
        match out_fold(cs@, 0, Seq::empty()) {
            Ok(os) => r matches Ok(v) && outs_v(v@) == os,
            Err(e) => r matches Err(m) && m@ == e,
        },
{
    let mut out: Vec<OutputBinding> = Vec::new();
    assert(outs_v(out@) =~= Seq::<OutputV>::empty());
    let mut k: usize = 0;
    while k < cs.len()
        invariant
            out_fold(cs@, 0, Seq::empty()) == out_fold(cs@, k as int, outs_v(out@)),
        decreases cs@.len() - k,
    {
        let c = &cs[k];
        if c.rule == SyntaxRule::TypePair {
            if c.children.len() < 2 {
                return Err(malformed_error());
            }
            let t = c.children[1].text.as_str();
            match AetherType::from_str(t) {
                Some(ty) => {
                    let ghost o0 = outs_v(out@);
                    let ob = OutputBinding { address: owned(c.children[0].text.as_str()), declared_type: ty };
                    let ghost ov = OutputV { address: ob.address@, declared_type: ty };
                    out.push(ob);
                    assert(outs_v(out@) =~= o0.push(ov));
                },
                None => {
                    return Err(text_and("Unknown type: ", t));
                },
            }
        }
        k = k + 1;
    }
    Ok(out)
}

pub open spec fn asr_v(a: Seq<Assertion>) -> Seq<AssertionV> {
    a.map_values(|a: Assertion| AssertionV { condition: expr_v(a.condition), on_fail: a.on_fail })
}

fn assertions_from_tree(cs: &Vec<SyntaxNode>) -> (r: Result<Vec<Assertion>, String>)
    ensures
        match val_fold(cs@, 0, Seq::empty()) {
            Ok(a) => r matches Ok(v) && asr_v(v@) == a,
            Err(e) => r matches Err(m) && m@ == e,
        },
{
    let mut out: Vec<Assertion> = Vec::new();
    assert(asr_v(out@) =~= Seq::<AssertionV>::empty());
    let mut k: usize = 0;
    while k < cs.len()
        invariant
            val_fold(cs@, 0, Seq::empty()) == val_fold(cs@, k as int, asr_v(out@)),
        decreases cs@.len() - k,
    {
        let c = &cs[k];
        if c.rule == SyntaxRule::Assertion {
            if c.children.len() < 2 {
                return Err(malformed_error());
            }
            let cond = match expr_from_tree(Level::Expression, &c.children[0]) {
                Ok(x) => x,
                Err(e) => {
                    return Err(e);
                },
            };
            match halt_from_tree(&c.children[1]) {
                Ok(h) => {
                    let ghost a0 = asr_v(out@);
                    let a = Assertion { condition: cond, on_fail: h };
                    let ghost av = AssertionV { condition: expr_v(a.condition), on_fail: h };
                    out.push(a);
                    assert(asr_v(out@) =~= a0.push(av));
                },
                Err(e) => {
                    return Err(e);
                },
            }
        }
        k = k + 1;
    }
    Ok(out)
}

/// The action node of an `action_node` tree, with no dependencies yet: those
/// are set once the whole root block has been read (`link_dependencies`).
fn action_from_tree(n: &SyntaxNode) -> (r: Result<ActionNode, String>)
    ensures
        match action_at(*n) {
            Ok(x) => r matches Ok(a) && node_v(a) == x,
            Err(e) => r matches Err(m) && m@ == e,
        },
{
    proof {
        reveal_strlit("");
    }
    if n.children.len() < 2 {
        return Err(malformed_error());
    }
    let mut node = ActionNode {
        id: owned(n.children[0].text.as_str()),
        meta: None,
        inputs: None,
        condition: None,
        language: GuestLang::Python,
        code: owned(""),
        outputs: None,
        validation: None,
        depends_on: Vec::new(),
    };
    assert(node_v(node) == node_start(n.children@[0].text@)) by {
        assert(node.depends_on@.map_values(|d: String| d@) =~= Seq::<Seq<char>>::empty());
        assert(node.code@ =~= Seq::<char>::empty());
    }
    let parts = &n.children[1].children;
    let mut k: usize = 0;
    while k < parts.len()
        invariant
            n.children@.len() >= 2,
            parts == &n.children@[1].children,
            action_at(*n) == parts_fold(parts@, k as int, node_v(node)),
        decreases parts@.len() - k,
    {
        let part = &parts[k];
        let ghost before = node_v(node);
        match part.rule {
            SyntaxRule::MetaBlock => match meta_from_tree(part) {
                Ok(m) => {
                    node.meta = Some(m);
                },
                Err(e) => {
                    return Err(e);
                },
            },
            SyntaxRule::InBlock => match inputs_from_tree(&part.children) {
                Ok(bs) => {
                    node.inputs = Some(bs);
                },
                Err(e) => {
                    return Err(e);
                },
            },
            SyntaxRule::ConditionBlock => {
                if part.children.len() == 0 {
                    return Err(malformed_error());
                }
                match expr_from_tree(Level::Expression, &part.children[0]) {
                    Ok(c) => {
                        node.condition = Some(c);
                    },
                    Err(e) => {
                        return Err(e);
                    },
                }
            },
            SyntaxRule::ExecBlock => {
                if part.children.len() < 2 {
                    return Err(malformed_error());
                }
                let lang = part.children[0].text.as_str();
                match GuestLang::from_str(lang) {
                    Some(l) => {
                        node.language = l;
                        let code = crate::text::trim_vec(&chars_of(part.children[1].text.as_str()));
                        node.code = string_of(code.as_slice());
                    },
                    None => {
                        return Err(text_and("Unknown language: ", lang));
                    },
                }
            },
            SyntaxRule::OutBlock => match outputs_from_tree(&part.children) {
                Ok(os) => {
                    node.outputs = Some(os);
                },
                Err(e) => {
                    return Err(e);
                },
            },
            SyntaxRule::ValBlock => match assertions_from_tree(&part.children) {
                Ok(a) => {
                    node.validation = Some(a);
                },
                Err(e) => {
                    return Err(e);
                },
            },
            _ => {},
        }
        assert(part_apply(before, parts@[k as int]) == Ok::<NodeV, Seq<char>>(node_v(node)));
        k = k + 1;
    }
    Ok(node)
}


// ---------------------------------------------------------------------------
// Blocks, roots and programs
// ---------------------------------------------------------------------------

pub struct ContextV {
    pub id: Option<Seq<char>>,
    pub data: Seq<(Seq<char>, ValueV)>,
}

pub struct RequestV {
    pub id: Seq<char>,
    pub sender: Option<Seq<char>>,
    pub target: Option<Seq<char>>,
    pub context: Option<Seq<(Seq<char>, ValueV)>>,
    pub instructions: Option<Seq<char>>,
    pub data: Seq<(Seq<char>, ValueV)>,
}

pub struct FailureV {
    pub id: Seq<char>,
    pub data: Seq<(Seq<char>, ValueV)>,
}

pub struct ParallelV {
    pub id: Option<Seq<char>>,
    pub nodes: Seq<NodeV>,
}

pub enum BlockV {
    Context(ContextV),
    Action(NodeV),
    Request(RequestV),
    Failure(FailureV),
    Parallel(ParallelV),
}

pub struct RootV {
    pub id: Seq<char>,
    pub blocks: Seq<BlockV>,
}

pub open spec fn context_v(c: ContextBlock) -> ContextV {
    ContextV { id: opt_v(c.id), data: kvs_v(c.data@) }
}

pub open spec fn request_v(r: RequestBlock) -> RequestV {
    RequestV {
        id: r.id@,
        sender: opt_v(r.sender),
        target: opt_v(r.target),
        context: match r.context {
            Some(c) => Some(kvs_v(c@)),
            None => None,
        },
        instructions: opt_v(r.instructions),
        data: kvs_v(r.data@),
    }
}

pub open spec fn block_v(b: Block) -> BlockV {
    match b {
        Block::Context(c) => BlockV::Context(context_v(c)),
        Block::Action(n) => BlockV::Action(node_v(n)),
        Block::Request(r) => BlockV::Request(request_v(r)),
        Block::Failure(f) => BlockV::Failure(FailureV { id: f.id@, data: kvs_v(f.data@) }),
        Block::Parallel(p) => BlockV::Parallel(
            ParallelV { id: opt_v(p.id), nodes: p.nodes@.map_values(|n: ActionNode| node_v(n)) },
        ),
    }
}

pub open spec fn root_v(r: RootBlock) -> RootV {
    RootV { id: r.id@, blocks: r.blocks@.map_values(|b: Block| block_v(b)) }
}

pub open spec fn program_v(p: AetherProgram) -> Seq<RootV> {
    p.roots@.map_values(|r: RootBlock| root_v(r))
}

/// A context block: an optional hash and its pairs, as a map.
pub open spec fn context_fold(cs: Seq<SyntaxNode>, k: int, c: ContextV) -> Result<ContextV, Seq<char>>
    decreases cs.len() - k,
{
    if k < 0 || k >= cs.len() {
        Ok(c)
    } else {
        match cs[k].rule {
            SyntaxRule::Hash => context_fold(cs, k + 1, ContextV { id: Some(cs[k].text@), ..c }),
            SyntaxRule::CtxPair => match pair_at(cs[k]) {
                Ok((key, v)) => context_fold(cs, k + 1, ContextV { data: kv_insert(c.data, key, v), ..c }),
                Err(e) => Err(e),
            },
            _ => context_fold(cs, k + 1, c),
        }
    }
}

/// The fields of a request, each text without its quotes.
pub open spec fn request_fold(cs: Seq<SyntaxNode>, k: int, r: RequestV) -> Result<RequestV, Seq<char>>
    decreases cs.len() - k,
{
    if k < 0 || k >= cs.len() {
        Ok(r)
    } else {
        let f = cs[k];
        match f.rule {
            SyntaxRule::SenderField | SyntaxRule::TargetField | SyntaxRule::InstructionsField => if f.children@.len() == 0 {
                Err(malformed())
            } else {
                let t = Some(strip_quotes(f.children@[0].text@));
                request_fold(
                    cs,
                    k + 1,
                    match f.rule {
                        SyntaxRule::SenderField => RequestV { sender: t, ..r },
                        SyntaxRule::TargetField => RequestV { target: t, ..r },
                        _ => RequestV { instructions: t, ..r },
                    },
                )
            },
            SyntaxRule::ContextField => match pairs_fold(f.children@, SyntaxRule::Pair, 0, Seq::empty()) {
                Ok(c) => request_fold(cs, k + 1, RequestV { context: Some(c), ..r }),
                Err(e) => Err(e),
            },
            SyntaxRule::Pair => match pair_at(f) {
                Ok((key, v)) => request_fold(cs, k + 1, RequestV { data: kv_insert(r.data, key, v), ..r }),
                Err(e) => Err(e),
            },
            _ => request_fold(cs, k + 1, r),
        }
    }
}

pub open spec fn request_at(n: SyntaxNode) -> Result<RequestV, Seq<char>> {
    let cs = n.children@;
    if cs.len() < 2 {
        Err(malformed())
    } else {
        request_fold(
            cs[1].children@,
            0,
            RequestV {
                id: cs[0].text@,
                sender: None,
                target: None,
                context: None,
                instructions: None,
                data: Seq::empty(),
            },
        )
    }
}

pub open spec fn parallel_fold(cs: Seq<SyntaxNode>, k: int, p: ParallelV) -> Result<ParallelV, Seq<char>>
    decreases cs.len() - k,
{
    if k < 0 || k >= cs.len() {
        Ok(p)
    } else {
        match cs[k].rule {
            SyntaxRule::Hash => parallel_fold(cs, k + 1, ParallelV { id: Some(cs[k].text@), ..p }),
            SyntaxRule::ActionNode => match action_at(cs[k]) {
                Ok(nv) => parallel_fold(cs, k + 1, ParallelV { nodes: p.nodes.push(nv), ..p }),
                Err(e) => Err(e),
            },
            _ => parallel_fold(cs, k + 1, p),
        }
    }
}

/// A block, by the rule that matched it.
pub open spec fn block_at(n: SyntaxNode) -> Result<BlockV, Seq<char>> {
    let cs = n.children@;
    match n.rule {
        SyntaxRule::ContextBlock => match context_fold(cs, 0, ContextV { id: None, data: Seq::empty() }) {
            Ok(c) => Ok(BlockV::Context(c)),
            Err(e) => Err(e),
        },
        SyntaxRule::ActionNode => match action_at(n) {
            Ok(a) => Ok(BlockV::Action(a)),
            Err(e) => Err(e),
        },
        SyntaxRule::RequestBlock => match request_at(n) {
            Ok(r) => Ok(BlockV::Request(r)),
            Err(e) => Err(e),
        },
        SyntaxRule::FailureBlock => if cs.len() == 0 {
            Err(malformed())
        } else {
            match pairs_fold(cs, SyntaxRule::Pair, 1, Seq::empty()) {
                Ok(d) => Ok(BlockV::Failure(FailureV { id: cs[0].text@, data: d })),
                Err(e) => Err(e),
            }
        },
        SyntaxRule::ParallelBlock => match parallel_fold(cs, 0, ParallelV { id: None, nodes: Seq::empty() }) {
            Ok(p) => Ok(BlockV::Parallel(p)),
            Err(e) => Err(e),
        },
        _ => Err("Unknown block type: "@ + rule_name(n.rule)),
    }
}

pub open spec fn root_fold(cs: Seq<SyntaxNode>, k: int, bs: Seq<BlockV>) -> Result<Seq<BlockV>, Seq<char>>
    decreases cs.len() - k,
{
    if k < 0 || k >= cs.len() {
        Ok(bs)
    } else if cs[k].rule != SyntaxRule::Block {
        root_fold(cs, k + 1, bs)
    } else if cs[k].children@.len() == 0 {
        Err(malformed())
    } else {
        match block_at(cs[k].children@[0]) {
            Ok(b) => root_fold(cs, k + 1, bs.push(b)),
            Err(e) => Err(e),
        }
    }
}

/// A root block: its hash, then its blocks in order, each action node with its
/// dependencies among the action nodes of the root (see `link_blocks`).
pub open spec fn root_at(n: SyntaxNode) -> Result<RootV, Seq<char>> {
    let cs = n.children@;
    if cs.len() == 0 {
        Err(malformed())
    } else {
        match root_fold(cs, 1, Seq::empty()) {
            Ok(bs) => Ok(RootV { id: cs[0].text@, blocks: link_blocks(bs) }),
            Err(e) => Err(e),
        }
    }
}

pub open spec fn program_fold(cs: Seq<SyntaxNode>, k: int, rs: Seq<RootV>) -> Result<Seq<RootV>, Seq<char>>
    decreases cs.len() - k,
{
    if k < 0 || k >= cs.len() {
        Ok(rs)
    } else if cs[k].rule != SyntaxRule::RootBlock {
        program_fold(cs, k + 1, rs)
    } else {
        match root_at(cs[k]) {
            Ok(r) => program_fold(cs, k + 1, rs.push(r)),
            Err(e) => Err(e),
        }
    }
}

/// The program of a `program` tree: its root blocks in order; the first
/// error met, in document order, otherwise.
pub open spec fn program_at(n: SyntaxNode) -> Result<Seq<RootV>, Seq<char>> {
    program_fold(n.children@, 0, Seq::empty())
}

fn context_from_tree(n: &SyntaxNode) -> (r: Result<ContextBlock, String>)
    ensures
        match context_fold(n.children@, 0, ContextV { id: None, data: Seq::empty() }) {
            Ok(c) => r matches Ok(x) && context_v(x) == c,
            Err(e) => r matches Err(m) && m@ == e,
        },
{
    let cs = &n.children;
    let mut c = ContextBlock { id: None, data: Vec::new() };
    assert(kvs_v(c.data@) =~= Seq::<(Seq<char>, ValueV)>::empty());
    let mut k: usize = 0;
    while k < cs.len()
        invariant
            cs == &n.children,
            context_fold(cs@, 0, ContextV { id: None, data: Seq::empty() }) == context_fold(cs@, k as int, context_v(c)),
        decreases cs@.len() - k,
    {
        match cs[k].rule {
            SyntaxRule::Hash => {
                c.id = Some(owned(cs[k].text.as_str()));
            },
            SyntaxRule::CtxPair => match pair_from_tree(&cs[k]) {
                Ok((key, v)) => {
                    kv_insert_exec(&mut c.data, key, v);
                },
                Err(e) => {
                    return Err(e);
                },
            },
            _ => {},
        }
        k = k + 1;
    }
    Ok(c)
}

fn request_from_tree(n: &SyntaxNode) -> (r: Result<RequestBlock, String>)
    ensures
        match request_at(*n) {
            Ok(x) => r matches Ok(q) && request_v(q) == x,
            Err(e) => r matches Err(m) && m@ == e,
        },
{
    if n.children.len() < 2 {
        return Err(malformed_error());
    }
    let mut q = RequestBlock {
        id: owned(n.children[0].text.as_str()),
        sender: None,
        target: None,
        context: None,
        instructions: None,
        data: Vec::new(),
    };
    assert(kvs_v(q.data@) =~= Seq::<(Seq<char>, ValueV)>::empty());
    let cs = &n.children[1].children;
    let mut k: usize = 0;
    while k < cs.len()
        invariant
            n.children@.len() >= 2,
            cs == &n.children@[1].children,
            request_at(*n) == request_fold(cs@, k as int, request_v(q)),
        decreases cs@.len() - k,
    {
        let f = &cs[k];
        match f.rule {
            SyntaxRule::SenderField | SyntaxRule::TargetField | SyntaxRule::InstructionsField => {
                if f.children.len() == 0 {
                    return Err(malformed_error());
                }
                let t = Some(strip_quotes_exec(f.children[0].text.as_str()));
                match f.rule {
                    SyntaxRule::SenderField => {
                        q.sender = t;
                    },
                    SyntaxRule::TargetField => {
                        q.target = t;
                    },
                    _ => {
                        q.instructions = t;
                    },
                }
            },
            SyntaxRule::ContextField => match pairs_from_tree(&f.children, SyntaxRule::Pair, 0) {
                Ok(c) => {
                    q.context = Some(c);
                },
                Err(e) => {
                    return Err(e);
                },
            },
            SyntaxRule::Pair => match pair_from_tree(f) {
                Ok((key, v)) => {
                    kv_insert_exec(&mut q.data, key, v);
                },
                Err(e) => {
                    return Err(e);
                },
            },
            _ => {},
        }
        k = k + 1;
    }
    Ok(q)
}

fn parallel_from_tree(n: &SyntaxNode) -> (r: Result<ParallelBlock, String>)
    ensures
        match parallel_fold(n.children@, 0, ParallelV { id: None, nodes: Seq::empty() }) {
            Ok(p) => r matches Ok(x) && ParallelV { id: opt_v(x.id), nodes: x.nodes@.map_values(|a: ActionNode| node_v(a)) } == p,
            Err(e) => r matches Err(m) && m@ == e,
        },
{
    let cs = &n.children;
    let mut id: Option<String> = None;
    let mut nodes: Vec<ActionNode> = Vec::new();
    assert(nodes@.map_values(|a: ActionNode| node_v(a)) =~= Seq::<NodeV>::empty());
    let mut k: usize = 0;
    while k < cs.len()
        invariant
            cs == &n.children,
            parallel_fold(cs@, 0, ParallelV { id: None, nodes: Seq::empty() }) == parallel_fold(
                cs@,
                k as int,
                ParallelV { id: opt_v(id), nodes: nodes@.map_values(|a: ActionNode| node_v(a)) },
            ),
        decreases cs@.len() - k,
    {
        match cs[k].rule {
            SyntaxRule::Hash => {
                id = Some(owned(cs[k].text.as_str()));
            },
            SyntaxRule::ActionNode => match action_from_tree(&cs[k]) {
                Ok(a) => {
                    let ghost before = nodes@.map_values(|a: ActionNode| node_v(a));
                    let ghost av = node_v(a);
                    nodes.push(a);
                    assert(nodes@.map_values(|a: ActionNode| node_v(a)) =~= before.push(av));
                },
                Err(e) => {
                    return Err(e);
                },
            },
            _ => {},
        }
        k = k + 1;
    }
    Ok(ParallelBlock { id, nodes })
}

fn block_from_tree(n: &SyntaxNode) -> (r: Result<Block, String>)
    ensures
        match block_at(*n) {
            Ok(b) => r matches Ok(x) && block_v(x) == b,
            Err(e) => r matches Err(m) && m@ == e,
        },
{
    match n.rule {
        SyntaxRule::ContextBlock => match context_from_tree(n) {
            Ok(c) => Ok(Block::Context(c)),
            Err(e) => Err(e),
        },
        SyntaxRule::ActionNode => match action_from_tree(n) {
            Ok(a) => Ok(Block::Action(a)),
            Err(e) => Err(e),
        },
        SyntaxRule::RequestBlock => match request_from_tree(n) {
            Ok(q) => Ok(Block::Request(q)),
            Err(e) => Err(e),
        },
        SyntaxRule::FailureBlock => {
            if n.children.len() == 0 {
                return Err(malformed_error());
            }
            match pairs_from_tree(&n.children, SyntaxRule::Pair, 1) {
                Ok(d) => Ok(Block::Failure(FailureBlock { id: owned(n.children[0].text.as_str()), data: d })),
                Err(e) => Err(e),
            }
        },
        SyntaxRule::ParallelBlock => match parallel_from_tree(n) {
            Ok(p) => Ok(Block::Parallel(p)),
            Err(e) => Err(e),
        },
        _ => Err(text_and("Unknown block type: ", rule_label(n.rule))),
    }
}

fn root_from_tree(n: &SyntaxNode) -> (r: Result<RootBlock, String>)
    ensures
        match root_at(*n) {
            Ok(x) => r matches Ok(rb) && root_v(rb) == x,
            Err(e) => r matches Err(m) && m@ == e,
        },
{
    if n.children.len() == 0 {
        return Err(malformed_error());
    }
    let cs = &n.children;
    let mut blocks: Vec<Block> = Vec::new();
    assert(blocks@.map_values(|b: Block| block_v(b)) =~= Seq::<BlockV>::empty());
    let mut k: usize = 1;
    while k < cs.len()
        invariant
            1 <= k,
            cs == &n.children,
            root_fold(cs@, 1, Seq::empty()) == root_fold(cs@, k as int, blocks@.map_values(|b: Block| block_v(b))),
        decreases cs@.len() - k,
    {
        if cs[k].rule == SyntaxRule::Block {
            if cs[k].children.len() == 0 {
                return Err(malformed_error());
            }
            match block_from_tree(&cs[k].children[0]) {
                Ok(b) => {
                    let ghost before = blocks@.map_values(|b: Block| block_v(b));
                    let ghost bv = block_v(b);
                    blocks.push(b);
                    assert(blocks@.map_values(|b: Block| block_v(b)) =~= before.push(bv));
                },
                Err(e) => {
                    return Err(e);
                },
            }
        }
        k = k + 1;
    }
    let blocks = link_dependencies(blocks);
    Ok(RootBlock { id: owned(cs[0].text.as_str()), blocks })
}

/// The program of a `program` syntax tree: its root blocks in order, or the
/// first error met.
pub fn program_from_tree(n: &SyntaxNode) -> (r: Result<AetherProgram, String>)
    ensures
        match program_at(*n) {
            Ok(rs) => r matches Ok(p) && program_v(p) == rs,
            Err(e) => r matches Err(m) && m@ == e,
        },
{
    let cs = &n.children;
    let mut roots: Vec<RootBlock> = Vec::new();
    assert(roots@.map_values(|r: RootBlock| root_v(r)) =~= Seq::<RootV>::empty());
    let mut k: usize = 0;
    while k < cs.len()
        invariant
            cs == &n.children,
            program_at(*n) == program_fold(cs@, k as int, roots@.map_values(|r: RootBlock| root_v(r))),
        decreases cs@.len() - k,
    {
        if cs[k].rule == SyntaxRule::RootBlock {
            match root_from_tree(&cs[k]) {
                Ok(r) => {
                    let ghost before = roots@.map_values(|r: RootBlock| root_v(r));
                    let ghost rv = root_v(r);
                    roots.push(r);
                    assert(roots@.map_values(|r: RootBlock| root_v(r)) =~= before.push(rv));
                },
                Err(e) => {
                    return Err(e);
                },
            }
        }
        k = k + 1;
    }
    Ok(AetherProgram { roots })
}

} // verus!
