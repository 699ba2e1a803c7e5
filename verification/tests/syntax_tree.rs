use aether_kernel::ast::{ActionNode, AetherProgram, Block, GuestLang, HaltAction, InputSource, SafetyLevel, AetherValue};
use aether_kernel::json::FloatRepr;
use aether_kernel::show::expr_debug;
use aether_kernel::syntax::{expr_from_tree, program_from_tree, Level, SyntaxNode, SyntaxRule};

fn leaf(rule: SyntaxRule, text: &str) -> SyntaxNode {
    SyntaxNode { rule, text: text.to_string(), children: vec![], float: None }
}

fn node(rule: SyntaxRule, text: &str, children: Vec<SyntaxNode>) -> SyntaxNode {
    SyntaxNode { rule, text: text.to_string(), children, float: None }
}

/// An atom wrapped up to the unary level.
fn unary(atom_inner: SyntaxNode) -> SyntaxNode {
    let t = atom_inner.text.clone();
    let atom = node(SyntaxRule::Atom, &t, vec![atom_inner]);
    let acc = node(SyntaxRule::Accessor, &t, vec![atom]);
    node(SyntaxRule::Unary, &t, vec![acc])
}

fn additive_of(u: SyntaxNode) -> SyntaxNode {
    let t = u.text.clone();
    let m = node(SyntaxRule::Multiplicative, &t, vec![u]);
    node(SyntaxRule::Additive, &t, vec![m])
}

fn expression_of(cmp: SyntaxNode) -> SyntaxNode {
    let t = cmp.text.clone();
    let not = node(SyntaxRule::NotExpr, &t, vec![cmp]);
    let and = node(SyntaxRule::AndExpr, &t, vec![not]);
    let or = node(SyntaxRule::OrExpr, &t, vec![and]);
    node(SyntaxRule::Expression, &t, vec![or])
}

fn comparison(l: SyntaxNode, op: &str, r: SyntaxNode) -> SyntaxNode {
    node(SyntaxRule::Comparison, "", vec![additive_of(l), leaf(SyntaxRule::Other, op), additive_of(r)])
}

#[test]
fn comparison_trees_become_binary_expressions() {
    let call = node(
        SyntaxRule::FuncCall,
        "len($0xA)",
        vec![
            leaf(SyntaxRule::Identifier, "len"),
            expression_of(node(SyntaxRule::Comparison, "", vec![additive_of(unary(leaf(SyntaxRule::Address, "$0xA")))])),
        ],
    );
    let e = expression_of(comparison(unary(call), ">=", unary(leaf(SyntaxRule::Number, "0"))));
    let x = expr_from_tree(Level::Expression, &e).unwrap();
    assert_eq!(
        expr_debug(&x),
        "BinOp { left: FuncCall { name: \"len\", args: [Address(\"$0xA\")] }, op: Ge, right: Int(0) }"
    );
}

#[test]
fn arithmetic_folds_left_and_reports_unknown_operators() {
    let m = node(
        SyntaxRule::Multiplicative,
        "",
        vec![
            unary(leaf(SyntaxRule::Number, "2")),
            leaf(SyntaxRule::Other, "*"),
            unary(leaf(SyntaxRule::Number, "3")),
            leaf(SyntaxRule::Other, "%"),
            unary(leaf(SyntaxRule::Number, "4")),
        ],
    );
    let x = expr_from_tree(Level::Multiplicative, &m).unwrap();
    assert_eq!(expr_debug(&x), "BinOp { left: BinOp { left: Int(2), op: Mul, right: Int(3) }, op: Mod, right: Int(4) }");
    let bad = node(
        SyntaxRule::Additive,
        "",
        vec![
            node(SyntaxRule::Multiplicative, "", vec![unary(leaf(SyntaxRule::Number, "1"))]),
            leaf(SyntaxRule::Other, "^"),
            node(SyntaxRule::Multiplicative, "", vec![unary(leaf(SyntaxRule::Number, "1"))]),
        ],
    );
    assert_eq!(expr_from_tree(Level::Additive, &bad).unwrap_err(), "Unknown additive op: ^");
}

#[test]
fn atoms_literals_and_errors() {
    let s = unary(leaf(SyntaxRule::StringLiteral, "\"hi\""));
    assert_eq!(expr_debug(&expr_from_tree(Level::Unary, &s).unwrap()), "Str(\"hi\")");
    let null = unary(leaf(SyntaxRule::Identifier, "null"));
    assert_eq!(expr_debug(&expr_from_tree(Level::Unary, &null).unwrap()), "Null");
    let neg = node(SyntaxRule::Unary, "-1", vec![leaf(SyntaxRule::Other, "-"), unary(leaf(SyntaxRule::Number, "1"))]);
    assert_eq!(expr_debug(&expr_from_tree(Level::Unary, &neg).unwrap()), "UnaryOp { op: Neg, expr: Int(1) }");
    let mut f = leaf(SyntaxRule::Number, "1.5");
    f.float = Some(FloatRepr { bits: 1.5f64.to_bits(), text: String::from("1.5") });
    assert_eq!(expr_debug(&expr_from_tree(Level::Unary, &unary(f)).unwrap()), "Float(1.5)");
    let huge = unary(leaf(SyntaxRule::Number, "99999999999999999999"));
    assert_eq!(expr_from_tree(Level::Unary, &huge).unwrap_err(), "number too large to fit in target type");
    let odd = unary(leaf(SyntaxRule::Hash, "0x1"));
    assert_eq!(expr_from_tree(Level::Unary, &odd).unwrap_err(), "Unexpected atom: hash");
    let empty = node(SyntaxRule::Expression, "", vec![]);
    assert_eq!(expr_from_tree(Level::Expression, &empty).unwrap_err(), "Malformed syntax tree");
}

#[test]
fn accessors_apply_in_order() {
    let acc = node(
        SyntaxRule::Accessor,
        "",
        vec![
            node(SyntaxRule::Atom, "", vec![leaf(SyntaxRule::Address, "$0xR")]),
            node(SyntaxRule::IndexAccess, "", vec![expression_of(node(SyntaxRule::Comparison, "", vec![additive_of(unary(leaf(SyntaxRule::StringLiteral, "\"k\"")))]))]),
            node(SyntaxRule::DotAccess, "", vec![leaf(SyntaxRule::Identifier, "f")]),
        ],
    );
    assert_eq!(
        expr_debug(&expr_from_tree(Level::Accessor, &acc).unwrap()),
        "DotAccess { object: Index { object: Address(\"$0xR\"), key: Str(\"k\") }, field: \"f\" }"
    );
}

fn value(inner: SyntaxNode) -> SyntaxNode {
    let t = inner.text.clone();
    node(SyntaxRule::Value, &t, vec![inner])
}

fn pair(k: &str, v: SyntaxNode) -> SyntaxNode {
    node(SyntaxRule::Pair, "", vec![leaf(SyntaxRule::Identifier, k), value(v)])
}

fn action() -> SyntaxNode {
    let meta = node(
        SyntaxRule::MetaBlock,
        "",
        vec![
            pair("_intent", leaf(SyntaxRule::StringLiteral, "\"fetch\"")),
            pair("_safety", leaf(SyntaxRule::StringLiteral, "\"read_only\"")),
            pair("owner", leaf(SyntaxRule::Number, "7")),
        ],
    );
    let inb = node(
        SyntaxRule::InBlock,
        "",
        vec![
            node(SyntaxRule::RefPair, "", vec![leaf(SyntaxRule::Address, "$0xIN"), leaf(SyntaxRule::Address, "$0xSRC")]),
            node(SyntaxRule::ValuePair, "", vec![leaf(SyntaxRule::Address, "$0xK"), value(leaf(SyntaxRule::Boolean, "true"))]),
        ],
    );
    let exec = node(SyntaxRule::ExecBlock, "", vec![leaf(SyntaxRule::Other, "PYTHON"), leaf(SyntaxRule::Other, "\n   return 1\n  ")]);
    let out = node(SyntaxRule::OutBlock, "", vec![node(SyntaxRule::TypePair, "", vec![leaf(SyntaxRule::Address, "$0xOUT"), leaf(SyntaxRule::Other, "JSON")])]);
    let halt = node(SyntaxRule::HaltAction, "RETRY(2)", vec![leaf(SyntaxRule::Number, "2")]);
    let cond = expression_of(node(SyntaxRule::Comparison, "", vec![additive_of(unary(leaf(SyntaxRule::Boolean, "true")))]));
    let val = node(SyntaxRule::ValBlock, "", vec![node(SyntaxRule::Assertion, "", vec![cond, halt])]);
    let content = node(SyntaxRule::ActionContent, "", vec![meta, inb, exec, out, val]);
    node(SyntaxRule::ActionNode, "", vec![leaf(SyntaxRule::Hash, "0x1A"), content])
}

/// A root block `0xFF_MAIN` holding these blocks, in a program of its own.
fn parse_blocks(blocks: Vec<SyntaxNode>) -> Result<AetherProgram, String> {
    let mut cs = vec![leaf(SyntaxRule::Hash, "0xFF_MAIN")];
    for b in blocks {
        cs.push(node(SyntaxRule::Block, "", vec![b]));
    }
    program_from_tree(&node(SyntaxRule::Program, "", vec![node(SyntaxRule::RootBlock, "", cs)]))
}

fn action_at(p: &AetherProgram, k: usize) -> &ActionNode {
    match &p.roots[0].blocks[k] {
        Block::Action(n) => n,
        _ => panic!("not an action block"),
    }
}

/// An action node that only declares outputs at these addresses.
fn producer(id: &str, addrs: &[&str]) -> SyntaxNode {
    let pairs = addrs
        .iter()
        .map(|a| node(SyntaxRule::TypePair, "", vec![leaf(SyntaxRule::Address, a), leaf(SyntaxRule::Other, "JSON")]))
        .collect();
    let exec = node(SyntaxRule::ExecBlock, "", vec![leaf(SyntaxRule::Other, "PYTHON"), leaf(SyntaxRule::Other, "return 1")]);
    let content = node(SyntaxRule::ActionContent, "", vec![exec, node(SyntaxRule::OutBlock, "", pairs)]);
    node(SyntaxRule::ActionNode, "", vec![leaf(SyntaxRule::Hash, id), content])
}

/// An action node reading these addresses through `Ref(...)`.
fn consumer(id: &str, addrs: &[&str]) -> SyntaxNode {
    let pairs = addrs
        .iter()
        .enumerate()
        .map(|(i, a)| {
            let local = format!("$0xL{}", i);
            node(SyntaxRule::RefPair, "", vec![leaf(SyntaxRule::Address, &local), leaf(SyntaxRule::Address, a)])
        })
        .collect();
    let exec = node(SyntaxRule::ExecBlock, "", vec![leaf(SyntaxRule::Other, "PYTHON"), leaf(SyntaxRule::Other, "return 1")]);
    let content = node(SyntaxRule::ActionContent, "", vec![node(SyntaxRule::InBlock, "", pairs), exec]);
    node(SyntaxRule::ActionNode, "", vec![leaf(SyntaxRule::Hash, id), content])
}

#[test]
fn action_trees_become_action_nodes() {
    let p = parse_blocks(vec![producer("0x0S", &["$0xSRC"]), action()]).unwrap();
    let a = action_at(&p, 1);
    assert_eq!(a.id, "0x1A");
    let m = a.meta.as_ref().unwrap();
    assert_eq!(m.intent.as_deref(), Some("fetch"));
    assert_eq!(m.safety, Some(SafetyLevel::L1ReadOnly));
    assert_eq!(m.extra.len(), 1);
    assert!(matches!(m.extra[0].1, AetherValue::Int(7)));
    let ins = a.inputs.as_ref().unwrap();
    assert_eq!(ins.len(), 2);
    assert!(matches!(&ins[0].source, InputSource::Ref(t) if t == "$0xSRC"));
    assert!(matches!(&ins[1].source, InputSource::Literal(AetherValue::Bool(true))));
    assert_eq!(a.depends_on, vec![String::from("0x0S")]);
    assert_eq!(a.language, GuestLang::Python);
    assert_eq!(a.code, "return 1");
    assert_eq!(a.outputs.as_ref().unwrap()[0].address, "$0xOUT");
    assert_eq!(a.validation.as_ref().unwrap()[0].on_fail, HaltAction::Retry(Some(2)));
    assert!(action_at(&p, 0).depends_on.is_empty());
}

#[test]
fn dependencies_name_the_producing_nodes() {
    // An address that no node of the root produces adds no dependency.
    let p = parse_blocks(vec![action()]).unwrap();
    assert!(action_at(&p, 0).depends_on.is_empty());

    // Each Ref binding, in order, names the last node declaring its address;
    // later nodes and nodes of a parallel block count too.
    let par = node(SyntaxRule::ParallelBlock, "", vec![leaf(SyntaxRule::Hash, "0xPAR"), producer("0xP1", &["$0xC"])]);
    let p = parse_blocks(vec![
        consumer("0xUSE", &["$0xB", "$0xA", "$0xNONE", "$0xC"]),
        producer("0xA1", &["$0xA", "$0xB"]),
        producer("0xA2", &["$0xA"]),
        par,
    ])
    .unwrap();
    assert_eq!(action_at(&p, 0).depends_on, vec!["0xA1".to_string(), "0xA2".to_string(), "0xP1".to_string()]);

    // Dependencies stay within a root.
    let r1 = node(SyntaxRule::RootBlock, "", vec![leaf(SyntaxRule::Hash, "0xR1"), node(SyntaxRule::Block, "", vec![producer("0xA", &["$0xX"])])]);
    let r2 = node(SyntaxRule::RootBlock, "", vec![leaf(SyntaxRule::Hash, "0xR2"), node(SyntaxRule::Block, "", vec![consumer("0xB", &["$0xX"])])]);
    let p = program_from_tree(&node(SyntaxRule::Program, "", vec![r1, r2])).unwrap();
    assert!(matches!(&p.roots[1].blocks[0], Block::Action(n) if n.depends_on.is_empty()));
}

#[test]
fn programs_collect_roots_and_report_unknown_names() {
    let root = node(
        SyntaxRule::RootBlock,
        "",
        vec![leaf(SyntaxRule::Hash, "0xFF_MAIN"), node(SyntaxRule::Block, "", vec![action()])],
    );
    let program = node(SyntaxRule::Program, "", vec![root, leaf(SyntaxRule::Other, "")]);
    let p = program_from_tree(&program).unwrap();
    assert_eq!(p.roots.len(), 1);
    assert_eq!(p.roots[0].id, "0xFF_MAIN");
    assert!(matches!(&p.roots[0].blocks[0], Block::Action(n) if n.id == "0x1A"));

    let bad_lang = node(SyntaxRule::ExecBlock, "", vec![leaf(SyntaxRule::Other, "COBOL"), leaf(SyntaxRule::Other, "x")]);
    let bad = node(SyntaxRule::ActionNode, "", vec![leaf(SyntaxRule::Hash, "0x2"), node(SyntaxRule::ActionContent, "", vec![bad_lang])]);
    assert_eq!(parse_blocks(vec![bad]).err(), Some("Unknown language: COBOL".to_string()));
    let bad_type = node(SyntaxRule::OutBlock, "", vec![node(SyntaxRule::TypePair, "", vec![leaf(SyntaxRule::Address, "$0xO"), leaf(SyntaxRule::Other, "Int64")])]);
    let bad2 = node(SyntaxRule::ActionNode, "", vec![leaf(SyntaxRule::Hash, "0x3"), node(SyntaxRule::ActionContent, "", vec![bad_type])]);
    assert_eq!(parse_blocks(vec![bad2]).err(), Some("Unknown type: Int64".to_string()));
    let weird = node(SyntaxRule::Program, "", vec![node(SyntaxRule::RootBlock, "", vec![leaf(SyntaxRule::Hash, "0x1"), node(SyntaxRule::Block, "", vec![leaf(SyntaxRule::Other, "?")])])]);
    assert_eq!(program_from_tree(&weird).err(), Some("Unknown block type: other".to_string()));
}

fn with_meta(pairs: Vec<SyntaxNode>) -> SyntaxNode {
    let meta = node(SyntaxRule::MetaBlock, "", pairs);
    let exec = node(SyntaxRule::ExecBlock, "", vec![leaf(SyntaxRule::Other, "PYTHON"), leaf(SyntaxRule::Other, "return 1")]);
    let content = node(SyntaxRule::ActionContent, "", vec![meta, exec]);
    node(SyntaxRule::ActionNode, "", vec![leaf(SyntaxRule::Hash, "0x9"), content])
}

#[test]
fn meta_blocks_require_a_valid_safety_level() {
    let msg = Some(String::from("A ::META block requires a valid _safety declaration"));
    let missing = with_meta(vec![pair("_intent", leaf(SyntaxRule::StringLiteral, "\"x\""))]);
    assert_eq!(parse_blocks(vec![missing]).err(), msg);
    let unknown = with_meta(vec![pair("_safety", leaf(SyntaxRule::StringLiteral, "\"fs_write\""))]);
    assert_eq!(parse_blocks(vec![unknown]).err(), msg);
    let ok = with_meta(vec![pair("_safety", leaf(SyntaxRule::StringLiteral, "\"PURE\""))]);
    let p = parse_blocks(vec![ok]).unwrap();
    assert_eq!(action_at(&p, 0).meta.as_ref().unwrap().safety, Some(SafetyLevel::L0Pure));
}

#[test]
fn integer_literal_errors_name_their_cause() {
    let small = unary(leaf(SyntaxRule::Number, "-9999999999999999999"));
    assert_eq!(expr_from_tree(Level::Unary, &small).unwrap_err(), "number too small to fit in target type");
    let empty = unary(leaf(SyntaxRule::Number, ""));
    assert_eq!(expr_from_tree(Level::Unary, &empty).unwrap_err(), "cannot parse integer from empty string");
    let max = unary(leaf(SyntaxRule::Number, "9223372036854775807"));
    assert_eq!(expr_debug(&expr_from_tree(Level::Unary, &max).unwrap()), "Int(9223372036854775807)");
}
