//! The debug text of expressions, as `{:?}` writes it: validation results
//! record each assertion by this text.

use vstd::prelude::*;
use crate::ast::{BinOperator, Expr, UnaryOperator};
use crate::json::{decimal, push_chars, push_decimal};
use crate::text::string_of;

verus! {

/// What `<str as Debug>::fmt` writes for a string: the characters between
/// double quotes, with quotes, backslashes and unprintable characters escaped.
pub uninterp spec fn debug_str(s: Seq<char>) -> Seq<char>;

/// Printable ASCII other than the double quote and the backslash: the
/// characters that the debug form of a string writes unchanged.
pub open spec fn plain_ascii(s: Seq<char>) -> bool {
    forall|i: int| 0 <= i < s.len() ==> ' ' <= #[trigger] s[i] <= '~' && s[i] != '"' && s[i] != '\\'
}

/// `<str as Debug>::fmt`, through `format!("{:?}", s)`. The result is named
/// `debug_str`; of strings made of printable ASCII other than `"` and `\` the
/// documented form is the string in double quotes.
#[verifier::external_body]
fn str_debug(s: &str) -> (r: String)
    ensures
        r@ == debug_str(s@),
        plain_ascii(s@) ==> r@ == seq!['"'] + s@ + seq!['"'],
{
    format!("{:?}", s)
}

/// The decimal text of a signed integer.
pub open spec fn int_text(i: i64) -> Seq<char> {
    if i < 0 {
        seq!['-'] + decimal((-i) as nat)
    } else {
        decimal(i as nat)
    }
}

pub open spec fn binop_name(op: BinOperator) -> Seq<char> {
    match op {
        BinOperator::Eq => "Eq"@,
        BinOperator::Ne => "Ne"@,
        BinOperator::Gt => "Gt"@,
        BinOperator::Lt => "Lt"@,
        BinOperator::Ge => "Ge"@,
        BinOperator::Le => "Le"@,
        BinOperator::Add => "Add"@,
        BinOperator::Sub => "Sub"@,
        BinOperator::Mul => "Mul"@,
        BinOperator::Div => "Div"@,
        BinOperator::Mod => "Mod"@,
        BinOperator::And => "And"@,
        BinOperator::Or => "Or"@,
    }
}

pub open spec fn unop_name(op: UnaryOperator) -> Seq<char> {
    match op {
        UnaryOperator::Not => "Not"@,
        UnaryOperator::Neg => "Neg"@,
    }
}

/// The debug text of an expression: variant names, tuple fields in
/// parentheses, named fields in braces, strings in their debug form and
/// floats in their shortest round-trip form.
pub open spec fn expr_text(e: Expr) -> Seq<char>
    decreases e, 1nat,
{
    match e {
        Expr::Null => "Null"@,
        Expr::Bool(b) => if b { "Bool(true)"@ } else { "Bool(false)"@ },
        Expr::Int(i) => "Int("@ + int_text(i) + ")"@,
        Expr::Float(f) => "Float("@ + f.text@ + ")"@,
        Expr::Str(s) => "Str("@ + debug_str(s@) + ")"@,
        Expr::Address(a) => "Address("@ + debug_str(a@) + ")"@,
        Expr::Identifier(n) => "Identifier("@ + debug_str(n@) + ")"@,
        Expr::BinOp { left, op, right } => "BinOp { left: "@ + expr_text(*left) + ", op: "@
            + binop_name(op) + ", right: "@ + expr_text(*right) + " }"@,
        Expr::UnaryOp { op, expr } => "UnaryOp { op: "@ + unop_name(op) + ", expr: "@ + expr_text(
            *expr,
        ) + " }"@,
        Expr::Index { object, key } => "Index { object: "@ + expr_text(*object) + ", key: "@
            + expr_text(*key) + " }"@,
        Expr::DotAccess { object, field } => "DotAccess { object: "@ + expr_text(*object)
            + ", field: "@ + debug_str(field@) + " }"@,
        Expr::FuncCall { name, args } => "FuncCall { name: "@ + debug_str(name@) + ", args: ["@
            + args_text(args@) + "] }"@,
    }
}

/// Debug texts of a list of expressions, separated by ", ".
pub open spec fn args_text(s: Seq<Expr>) -> Seq<char>
    decreases s, 0nat,
{
    if s.len() == 0 {
        Seq::empty()
    } else if s.len() == 1 {
        expr_text(s[0])
    } else {
        args_text(s.subrange(0, s.len() - 1)) + ", "@ + expr_text(s[s.len() - 1])
    }
}

fn push_debug_str(out: &mut Vec<char>, s: &str)
    ensures
        final(out)@ == old(out)@ + debug_str(s@),
{
    let d = str_debug(s);
    push_chars(out, d.as_str());
}

fn push_int(out: &mut Vec<char>, i: i64)
    ensures
        final(out)@ == old(out)@ + int_text(i),
{
    if i < 0 {
        out.push('-');
        let mag: u64 = if i == i64::MIN {
            0x8000_0000_0000_0000u64
        } else {
            (-i) as u64
        };
        push_decimal(out, mag);
    } else {
        push_decimal(out, i as u64);
    }
}

fn binop_label(op: BinOperator) -> (r: &'static str)
    ensures
        r@ == binop_name(op),
{
    match op {
        BinOperator::Eq => "Eq",
        BinOperator::Ne => "Ne",
        BinOperator::Gt => "Gt",
        BinOperator::Lt => "Lt",
        BinOperator::Ge => "Ge",
        BinOperator::Le => "Le",
        BinOperator::Add => "Add",
        BinOperator::Sub => "Sub",
        BinOperator::Mul => "Mul",
        BinOperator::Div => "Div",
        BinOperator::Mod => "Mod",
        BinOperator::And => "And",
        BinOperator::Or => "Or",
    }
}

fn push_expr(out: &mut Vec<char>, e: &Expr)
    ensures
        final(out)@ == old(out)@ + expr_text(*e),
    decreases e,
{
    let ghost start = out@;
    match e {
        Expr::Null => push_chars(out, "Null"),
        Expr::Bool(b) => if *b {
            push_chars(out, "Bool(true)")
        } else {
            push_chars(out, "Bool(false)")
        },
        Expr::Int(i) => {
            push_chars(out, "Int(");
            push_int(out, *i);
            push_chars(out, ")");
        },
        Expr::Float(f) => {
            push_chars(out, "Float(");
            push_chars(out, f.text.as_str());
            push_chars(out, ")");
        },
        Expr::Str(s) => {
            push_chars(out, "Str(");
            push_debug_str(out, s.as_str());
            push_chars(out, ")");
        },
        Expr::Address(a) => {
            push_chars(out, "Address(");
            push_debug_str(out, a.as_str());
            push_chars(out, ")");
        },
        Expr::Identifier(n) => {
            push_chars(out, "Identifier(");
            push_debug_str(out, n.as_str());
            push_chars(out, ")");
        },
        Expr::BinOp { left, op, right } => {
            push_chars(out, "BinOp { left: ");
            push_expr(out, &**left);
            push_chars(out, ", op: ");
            push_chars(out, binop_label(*op));
            push_chars(out, ", right: ");
            push_expr(out, &**right);
            push_chars(out, " }");
        },
        Expr::UnaryOp { op, expr } => {
            push_chars(out, "UnaryOp { op: ");
            match op {
                UnaryOperator::Not => push_chars(out, "Not"),
                UnaryOperator::Neg => push_chars(out, "Neg"),
            }
            push_chars(out, ", expr: ");
            push_expr(out, &**expr);
            push_chars(out, " }");
        },
        Expr::Index { object, key } => {
            push_chars(out, "Index { object: ");
            push_expr(out, &**object);
            push_chars(out, ", key: ");
            push_expr(out, &**key);
            push_chars(out, " }");
        },
        Expr::DotAccess { object, field } => {
            push_chars(out, "DotAccess { object: ");
            push_expr(out, &**object);
            push_chars(out, ", field: ");
            push_debug_str(out, field.as_str());
            push_chars(out, " }");
        },
        Expr::FuncCall { name, args } => {
            push_chars(out, "FuncCall { name: ");
            push_debug_str(out, name.as_str());
            push_chars(out, ", args: [");
            let ghost mid = out@;
            let mut i: usize = 0;
            while i < args.len()
                invariant
                    0 <= i <= args@.len(),
                    *e == (Expr::FuncCall { name: *name, args: *args }),
                    out@ == mid + args_text(args@.subrange(0, i as int)),
                decreases args@.len() - i,
            {
                proof {
                    let ghost ev = *e;
                    assert(decreases_to!(ev => ev->FuncCall_args));
                    assert(decreases_to!(ev->FuncCall_args => ev->FuncCall_args@));
                    assert(decreases_to!(ev->FuncCall_args@ => ev->FuncCall_args@[i as int]));
                }
                let ghost t = args@.subrange(0, i + 1);
                assert(t.subrange(0, i as int) == args@.subrange(0, i as int));
                assert(t[i as int] == args@[i as int]);
                if i > 0 {
                    push_chars(out, ", ");
                }
                push_expr(out, &args[i]);
                i = i + 1;
            }
            assert(args@.subrange(0, args@.len() as int) == args@);
            push_chars(out, "] }");
        },
    }
}

/// The debug text of an expression (`format!("{:?}", e)` of the expression).
pub fn expr_debug(e: &Expr) -> (r: String)
    ensures
        r@ == expr_text(*e),
{
    let mut out: Vec<char> = Vec::new();
    push_expr(&mut out, e);
    assert(out@ == expr_text(*e));
    string_of(out.as_slice())
}

} // verus!
