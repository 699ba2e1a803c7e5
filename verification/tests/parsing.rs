use aether_kernel::ast::{Block, GuestLang, HaltAction, SafetyLevel};
use aether_kernel::grammar::parse_tree;
use aether_kernel::json::FloatRepr;
use aether_kernel::syntax::{program_from_tree, SyntaxNode, SyntaxRule};

fn fill(n: &mut SyntaxNode) {
    if n.rule == SyntaxRule::Number && n.text.contains('.') {
        let f: f64 = n.text.parse().unwrap();
        n.float = Some(FloatRepr { bits: f.to_bits(), text: format!("{:?}", f) });
    }
    for c in n.children.iter_mut() {
        fill(c);
    }
}

const DEMO: &str = "\u{a7}ROOT 0xFF_MAIN {
  // two nodes
  ::CTX { $0xLIMIT: 18, $0xRATE: 0.5 }

  \u{a7}ACT 0x1A {
    ::META { _intent: \"fetch active users\", _safety: \"read_only\" }
    ::EXEC<PYTHON> {
      return {\"users\": [1, 2]}
    }
    ::OUT { $0xUSERS: Type<JSON> }
  }

  \u{a7}ACT 0x2B {
    ::META { _intent: \"filter to adults only\", _safety: \"pure\" }
    ::IN   { $0xSRC: Ref($0xUSERS) }
    ::EXEC<PYTHON> {
      return [u for u in $0xSRC if u[\"age\"] >= 18]
    }
    ::OUT      { $0xADULTS: Type<JSON> }
    ::VALIDATE { ASSERT len($0xADULTS) >= 0 OR RETRY(3) }
  }
}
";

#[test]
fn the_readme_program_parses() {
    let mut tree = parse_tree(DEMO).unwrap();
    assert_eq!(tree.rule, SyntaxRule::Program);
    fill(&mut tree);
    let p = program_from_tree(&tree).unwrap();
    assert_eq!(p.roots.len(), 1);
    assert_eq!(p.roots[0].id, "0xFF_MAIN");
    assert_eq!(p.roots[0].blocks.len(), 3);
    match &p.roots[0].blocks[0] {
        Block::Context(c) => {
            assert_eq!(c.data.len(), 2);
            assert_eq!(c.data[0].0, "$0xLIMIT");
        }
        _ => panic!("expected a context block"),
    }
    match &p.roots[0].blocks[2] {
        Block::Action(n) => {
            assert_eq!(n.id, "0x2B");
            assert_eq!(n.meta.as_ref().unwrap().safety, Some(SafetyLevel::L0Pure));
            assert_eq!(n.language, GuestLang::Python);
            assert_eq!(n.code, "return [u for u in $0xSRC if u[\"age\"] >= 18]");
            assert_eq!(n.depends_on, vec![String::from("0x1A")]);
            let v = n.validation.as_ref().unwrap();
            assert_eq!(v.len(), 1);
            assert_eq!(v[0].on_fail, HaltAction::Retry(Some(3)));
        }
        _ => panic!("expected an action node"),
    }
    match &p.roots[0].blocks[1] {
        Block::Action(n) => {
            assert_eq!(n.code, "return {\"users\": [1, 2]}");
            assert!(n.depends_on.is_empty());
        }
        _ => panic!("expected an action node"),
    }
}

#[test]
fn text_outside_the_grammar_is_refused() {
    assert_eq!(
        parse_tree("hello").err(),
        Some(String::from("Parse error: the text is not an Aether program"))
    );
    assert_eq!(
        parse_tree("\u{a7}ROOT 0x1 {").err(),
        Some(String::from("Parse error: the text is not an Aether program"))
    );
    assert!(parse_tree("\u{a7}ROOT 0x1 { }").is_ok());
}

#[test]
fn requests_parse_at_the_top_level() {
    let src = "\u{a7}REQ 0xOPT_99 {
  ::SENDER: \"Cost_Governor_v2\"
  ::TARGET: \"Coder_LLM_v4\"
  ::CONTEXT { _source_id: \"0xFF_MAIN\", _issue: \"Redundant Serialization\" }
  ::INSTRUCTIONS { \"Merge 0x2B and 0x3C\" }
}";
    let tree = parse_tree(src).unwrap();
    assert_eq!(tree.children[0].rule, SyntaxRule::RequestBlock);
    let p = program_from_tree(&tree).unwrap();
    assert_eq!(p.roots.len(), 0);
}

#[test]
fn deep_nesting_is_refused() {
    let mut e = String::new();
    for _ in 0..200 {
        e.push('(');
    }
    e.push('1');
    for _ in 0..200 {
        e.push(')');
    }
    let src = format!("\u{a7}ROOT 0x1 {{ \u{a7}ACT 0x2 {{ ::CONDITION {{ {} }} ::EXEC<TEXT> {{ x }} }} }}", e);
    assert_eq!(
        parse_tree(&src).err(),
        Some(String::from("Parse error: the program is nested too deeply"))
    );
}

#[test]
fn moderate_nesting_parses() {
    let mut e = String::new();
    for _ in 0..40 {
        e.push('(');
    }
    e.push('1');
    for _ in 0..40 {
        e.push(')');
    }
    let src = format!("\u{a7}ROOT 0x1 {{ \u{a7}ACT 0x2 {{ ::CONDITION {{ {} }} ::EXEC<TEXT> {{ x }} }} }}", e);
    let mut tree = parse_tree(&src).unwrap();
    fill(&mut tree);
    assert!(program_from_tree(&tree).is_ok());
}
