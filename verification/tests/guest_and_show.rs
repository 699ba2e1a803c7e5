use aether_kernel::ast::{BinOperator, Expr, GuestLang, UnaryOperator};
use aether_kernel::guest::{dedent, js_script_for, plan_guest, python_script_for, sanitize_address, GuestPlan};
use aether_kernel::json::{members_insert, to_json_text, FloatRepr, JsonNumber, JsonValue};
use aether_kernel::show::expr_debug;

fn inputs() -> JsonValue {
    let mut ms = Vec::new();
    members_insert(&mut ms, String::from("$0xSRC"), JsonValue::Array(vec![JsonValue::Number(JsonNumber::PosInt(1))]));
    JsonValue::Object(ms)
}

#[test]
fn addresses_become_guest_names() {
    assert_eq!(sanitize_address("$0xSRC"), "_ae_0xSRC");
    assert_eq!(sanitize_address("$a.b.$c"), "_ae_a_b_c");
    assert_eq!(sanitize_address(""), "_ae_");
}

#[test]
fn dedent_removes_common_indentation() {
    assert_eq!(dedent("    a\n      b\n    c").as_deref(), Some("a\n  b\nc"));
    assert_eq!(dedent("a\n    b\n    c").as_deref(), Some("a\nb\nc"));
    assert_eq!(dedent("x\n\n   \n  y").as_deref(), Some("x\n\n\ny"));
    assert_eq!(dedent("").as_deref(), Some(""));
}

#[test]
fn python_scripts_bind_inputs_and_capture_returns() {
    let s = python_script_for("data = $0xSRC\nreturn data", &inputs()).unwrap();
    assert_eq!(
        s,
        "import json, sys\n\n# Inject inputs from Aether ledger\n_ae_0xSRC = json.loads(r'''[1]''')\n\n# User code\n_ae_result = None\ndata = _ae_0xSRC\n_ae_result = data\n\n# Output result as JSON\nif _ae_result is not None:\n    print(json.dumps(_ae_result))\nelse:\n    print(\"null\")\n"
    );
}

#[test]
fn js_scripts_wrap_code_in_a_function() {
    let s = js_script_for("return $0xSRC.length;", &inputs());
    assert!(s.starts_with("\nconst _ae_0xSRC = JSON.parse(`[1]`);\n\nconst _ae_exec = () => {\n    return _ae_0xSRC.length;\n};\n"));
}

#[test]
fn runners_by_language() {
    let none = JsonValue::Object(vec![]);
    assert!(matches!(plan_guest(GuestLang::Shell, "echo hi", &none), Some(GuestPlan::Shell(c)) if c == "echo hi"));
    match plan_guest(GuestLang::Text, "plain", &none) {
        Some(GuestPlan::Done(Ok(v))) => assert_eq!(to_json_text(&v), "\"plain\""),
        _ => panic!("expected text"),
    }
    match plan_guest(GuestLang::SQL, "select 1", &none) {
        Some(GuestPlan::Done(Err(e))) => assert_eq!(e, "Runner for SQL is not yet implemented"),
        _ => panic!("expected an error"),
    }
    assert!(matches!(plan_guest(GuestLang::Python, "return 1", &none), Some(GuestPlan::Python(_))));
}

#[test]
fn expressions_print_in_debug_form() {
    let e = Expr::BinOp {
        left: Box::new(Expr::FuncCall { name: String::from("len"), args: vec![Expr::Address(String::from("$0xA")), Expr::Null] }),
        op: BinOperator::Ge,
        right: Box::new(Expr::UnaryOp { op: UnaryOperator::Neg, expr: Box::new(Expr::Int(-3)) }),
    };
    assert_eq!(
        expr_debug(&e),
        "BinOp { left: FuncCall { name: \"len\", args: [Address(\"$0xA\"), Null] }, op: Ge, right: UnaryOp { op: Neg, expr: Int(-3) } }"
    );
    let f = Expr::Index {
        object: Box::new(Expr::Identifier(String::from("x"))),
        key: Box::new(Expr::Float(FloatRepr { bits: 0.5f64.to_bits(), text: String::from("0.5") })),
    };
    assert_eq!(expr_debug(&f), "Index { object: Identifier(\"x\"), key: Float(0.5) }");
    let d = Expr::DotAccess { object: Box::new(Expr::Str(String::from("q\"t"))), field: String::from("f") };
    assert_eq!(expr_debug(&d), "DotAccess { object: Str(\"q\\\"t\"), field: \"f\" }");
    assert_eq!(expr_debug(&Expr::FuncCall { name: String::from("keys"), args: vec![] }), "FuncCall { name: \"keys\", args: [] }");
}
