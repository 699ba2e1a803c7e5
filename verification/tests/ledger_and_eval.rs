use aether_kernel::ast::{AetherType, BinOperator, Expr, UnaryOperator};
use aether_kernel::eval::{eval_expr, Eval, FloatOp};
use aether_kernel::json::{json_equal, to_json_text, FloatRepr, JsonNumber, JsonValue, is_truthy, members_insert};
use aether_kernel::ledger::StateLedger;
use aether_kernel::run::merge_ledger;

fn s(x: &str) -> JsonValue {
    JsonValue::String(x.to_string())
}

fn n(x: u64) -> JsonValue {
    JsonValue::Number(JsonNumber::PosInt(x))
}

fn obj(pairs: Vec<(&str, JsonValue)>) -> JsonValue {
    let mut ms = Vec::new();
    for (k, v) in pairs {
        members_insert(&mut ms, k.to_string(), v);
    }
    JsonValue::Object(ms)
}

fn text(r: Eval) -> String {
    match r {
        Eval::Done(Ok(v)) => to_json_text(&v),
        Eval::Done(Err(e)) => format!("ERR {}", e),
        Eval::Need(_) => String::from("NEED"),
    }
}

fn bx(e: Expr) -> Box<Expr> {
    Box::new(e)
}

#[test]
fn read_after_write_gives_the_value() {
    let mut l = StateLedger::new();
    assert!(l.write("$0xA", n(5), None).is_ok());
    assert_eq!(l.read("$0xA").map(to_json_text), Some(String::from("5")));
    assert!(l.read("$0xB").is_none());
    assert!(l.write("$0xB", s("x"), Some(&AetherType::String)).is_ok());
    assert_eq!(l.read("$0xB").map(to_json_text), Some(String::from("\"x\"")));
    assert_eq!(l.export().len(), 2);
}

#[test]
fn refused_write_reports_and_changes_nothing() {
    let mut l = StateLedger::new();
    l.write("$0xA", n(1), None).unwrap();
    let e = l.write("$0xA", s("text"), Some(&AetherType::Int)).unwrap_err();
    assert_eq!(e, "Type mismatch for $0xA: expected Int, got \"text\"");
    assert_eq!(l.read("$0xA").map(to_json_text), Some(String::from("1")));
    let e2 = l.write("$0xM", n(2), Some(&AetherType::MapType)).unwrap_err();
    assert_eq!(e2, "Type mismatch for $0xM: expected Map, got 2");
    assert!(l.read("$0xM").is_none());
}

#[test]
fn writes_leave_other_addresses_alone() {
    let mut l = StateLedger::new();
    l.write("$0xA", n(1), None).unwrap();
    l.write("$0xB", n(2), None).unwrap();
    l.write("$0xC", n(3), None).unwrap();
    assert_eq!(l.read("$0xA").map(to_json_text), Some(String::from("1")));
    assert_eq!(l.read("$0xB").map(to_json_text), Some(String::from("2")));
    let snap = l.snapshot();
    assert_eq!(snap.read("$0xC").map(to_json_text), Some(String::from("3")));
}

#[test]
fn written_addresses_never_change() {
    let mut l = StateLedger::new();
    l.write("$0xA", n(1), None).unwrap();
    assert_eq!(
        l.write("$0xA", n(3), None),
        Err(String::from("Address $0xA is already written; the ledger is append-only"))
    );
    assert_eq!(
        l.write("$0xA", n(1), Some(&AetherType::Int)),
        Err(String::from("Address $0xA is already written; the ledger is append-only"))
    );
    assert_eq!(l.read("$0xA").map(to_json_text), Some(String::from("1")));
    assert_eq!(l.export().len(), 1);
}

#[test]
fn merging_keeps_main_values_and_adds_new_addresses() {
    let mut main = StateLedger::new();
    main.write("$0xA", n(1), None).unwrap();
    main.write("$0xB", n(2), None).unwrap();
    let mut local = StateLedger::new();
    local.write("$0xA", n(9), None).unwrap();
    local.write("$0xC", n(7), None).unwrap();
    merge_ledger(&mut main, &local);
    assert_eq!(main.read("$0xA").map(to_json_text), Some(String::from("1")));
    assert_eq!(main.read("$0xB").map(to_json_text), Some(String::from("2")));
    assert_eq!(main.read("$0xC").map(to_json_text), Some(String::from("7")));
}

#[test]
fn objects_keep_sorted_keys_and_print_compactly() {
    let v = obj(vec![("b", n(1)), ("a", s("q\"x")), ("c", JsonValue::Array(vec![JsonValue::Null, JsonValue::Bool(false)]))]);
    assert_eq!(to_json_text(&v), "{\"a\":\"q\\\"x\",\"b\":1,\"c\":[null,false]}");
    let neg = JsonValue::Number(JsonNumber::NegInt(-42));
    assert_eq!(to_json_text(&neg), "-42");
    let f = JsonValue::Number(JsonNumber::Float(FloatRepr { bits: 2.5f64.to_bits(), text: String::from("2.5") }));
    assert_eq!(to_json_text(&f), "2.5");
    assert_eq!(to_json_text(&s("tab\there\n")), "\"tab\\there\\n\"");
}

#[test]
fn truthiness_and_equality() {
    assert!(!is_truthy(&JsonValue::Null));
    assert!(!is_truthy(&s("")));
    assert!(is_truthy(&s("x")));
    assert!(!is_truthy(&n(0)));
    assert!(is_truthy(&n(2)));
    assert!(!is_truthy(&obj(vec![])));
    assert!(json_equal(&obj(vec![("a", n(1))]), &obj(vec![("a", n(1))])));
    assert!(!json_equal(&n(1), &s("1")));
}

#[test]
fn eval_reads_addresses_and_identifiers() {
    let mut l = StateLedger::new();
    l.write("$0xA", n(4), None).unwrap();
    let none: Vec<JsonValue> = vec![];
    assert_eq!(text(eval_expr(&Expr::Address(String::from("$0xA")), &l, &none)), "4");
    assert_eq!(
        text(eval_expr(&Expr::Address(String::from("$0xZ")), &l, &none)),
        "ERR Address $0xZ not found in ledger"
    );
    assert_eq!(text(eval_expr(&Expr::Identifier(String::from("word")), &l, &none)), "\"word\"");
    assert_eq!(text(eval_expr(&Expr::Int(-7), &l, &none)), "-7");
}

#[test]
fn eval_logic_and_equality() {
    let l = StateLedger::new();
    let none: Vec<JsonValue> = vec![];
    let eq = Expr::BinOp { left: bx(Expr::Str(String::from("a"))), op: BinOperator::Eq, right: bx(Expr::Str(String::from("a"))) };
    assert_eq!(text(eval_expr(&eq, &l, &none)), "true");
    let and = Expr::BinOp { left: bx(Expr::Bool(true)), op: BinOperator::And, right: bx(Expr::Null) };
    assert_eq!(text(eval_expr(&and, &l, &none)), "false");
    let not = Expr::UnaryOp { op: UnaryOperator::Not, expr: bx(Expr::Str(String::new())) };
    assert_eq!(text(eval_expr(&not, &l, &none)), "true");
    let cat = Expr::BinOp { left: bx(Expr::Str(String::from("a"))), op: BinOperator::Add, right: bx(Expr::Bool(true)) };
    assert_eq!(text(eval_expr(&cat, &l, &none)), "\"atrue\"");
    let bad = Expr::BinOp { left: bx(Expr::Str(String::from("a"))), op: BinOperator::Sub, right: bx(Expr::Null) };
    assert_eq!(text(eval_expr(&bad, &l, &none)), "ERR Cannot perform Sub on \"a\" and null");
}

#[test]
fn eval_comparison_asks_for_a_float_step_then_uses_the_answer() {
    let mut l = StateLedger::new();
    l.write("$0xN", n(3), None).unwrap();
    let gt = Expr::BinOp { left: bx(Expr::Address(String::from("$0xN"))), op: BinOperator::Gt, right: bx(Expr::Int(1)) };
    match eval_expr(&gt, &l, &vec![]) {
        Eval::Need(t) => {
            assert!(matches!(t.op, FloatOp::Gt));
            assert!(matches!(t.left, JsonNumber::PosInt(3)));
            assert!(matches!(t.right, JsonNumber::PosInt(1)));
        }
        _ => panic!("expected a float step"),
    }
    assert_eq!(text(eval_expr(&gt, &l, &vec![JsonValue::Bool(true)])), "true");
    let cmp_str = Expr::BinOp { left: bx(Expr::Str(String::from("x"))), op: BinOperator::Lt, right: bx(Expr::Int(1)) };
    assert_eq!(text(eval_expr(&cmp_str, &l, &vec![])), "ERR Cannot compare: \"x\"");
}

#[test]
fn eval_indexing_fields_and_builtins() {
    let mut l = StateLedger::new();
    l.write("$0xO", obj(vec![("count", n(2)), ("items", JsonValue::Array(vec![s("p"), s("q")]))]), None).unwrap();
    let none: Vec<JsonValue> = vec![];
    let o = || bx(Expr::Address(String::from("$0xO")));
    let idx = Expr::Index { object: o(), key: bx(Expr::Str(String::from("count"))) };
    assert_eq!(text(eval_expr(&idx, &l, &none)), "2");
    let missing = Expr::Index { object: o(), key: bx(Expr::Str(String::from("nope"))) };
    assert_eq!(text(eval_expr(&missing, &l, &none)), "ERR Key 'nope' not found in object");
    let dot = Expr::DotAccess { object: o(), field: String::from("items") };
    assert_eq!(text(eval_expr(&dot, &l, &none)), "[\"p\",\"q\"]");
    let second = Expr::Index { object: bx(Expr::DotAccess { object: o(), field: String::from("items") }), key: bx(Expr::Int(1)) };
    assert_eq!(text(eval_expr(&second, &l, &none)), "\"q\"");
    let out = Expr::Index { object: bx(Expr::DotAccess { object: o(), field: String::from("items") }), key: bx(Expr::Int(5)) };
    assert_eq!(text(eval_expr(&out, &l, &none)), "ERR Index 5 out of bounds");
    let len = Expr::FuncCall { name: String::from("len"), args: vec![Expr::Str(String::from("héllo"))] };
    assert_eq!(text(eval_expr(&len, &l, &none)), "6");
    let ty = Expr::FuncCall { name: String::from("type_of"), args: vec![Expr::Address(String::from("$0xO"))] };
    assert_eq!(text(eval_expr(&ty, &l, &none)), "\"object\"");
    let keys = Expr::FuncCall { name: String::from("keys"), args: vec![Expr::Address(String::from("$0xO"))] };
    assert_eq!(text(eval_expr(&keys, &l, &none)), "[\"count\",\"items\"]");
    let contains = Expr::FuncCall { name: String::from("contains"), args: vec![Expr::Str(String::from("abc")), Expr::Str(String::from("bc"))] };
    assert_eq!(text(eval_expr(&contains, &l, &none)), "true");
    let unknown = Expr::FuncCall { name: String::from("sum"), args: vec![] };
    assert_eq!(text(eval_expr(&unknown, &l, &none)), "ERR Unknown function: sum");
    let no_arg = Expr::FuncCall { name: String::from("len"), args: vec![] };
    assert_eq!(text(eval_expr(&no_arg, &l, &none)), "ERR len() requires 1 argument");
}
