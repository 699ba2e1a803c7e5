use aether_kernel::ast::{
    ActionNode, AetherType, AetherValue, Assertion, BinOperator, Block, ContextBlock, Expr,
    GuestLang, HaltAction, InputBinding, InputSource, MetaBlock, OutputBinding, ParallelBlock,
    SafetyLevel,
};
use aether_kernel::executor::{
    after_guest, before_guest, check_safety, node_header, ExecutionConfig, NodeTrace, PostGuest,
    PreGuest, ValidationResult,
};
use aether_kernel::heal::{heal_prompt, max_retries, retry_target, HealLoop, HealStep};
use aether_kernel::json::{to_json_text, JsonNumber, JsonValue};
use aether_kernel::ledger::StateLedger;
use aether_kernel::registry::{AslEntry, AslRegistry};
use aether_kernel::depends::{dependency_ids, link_dependencies};
use aether_kernel::run::{annotate_dependencies, count_failures, global_status, level_nodes, load_context, RootRun, RunStep};
use aether_kernel::schedule::{collect_actions, topological_sort};

fn node(id: &str) -> ActionNode {
    ActionNode {
        id: id.to_string(),
        meta: None,
        inputs: None,
        condition: None,
        language: GuestLang::Python,
        code: String::from("return 1"),
        outputs: None,
        validation: None,
        depends_on: vec![],
    }
}

fn with_safety(mut n: ActionNode, intent: &str, l: SafetyLevel) -> ActionNode {
    n.meta = Some(MetaBlock { intent: Some(intent.to_string()), safety: Some(l), extra: vec![] });
    n
}

fn producing(mut n: ActionNode, addr: &str, t: AetherType) -> ActionNode {
    n.outputs = Some(vec![OutputBinding { address: addr.to_string(), declared_type: t }]);
    n
}

fn reading(mut n: ActionNode, addr: &str) -> ActionNode {
    let local = format!("{}_IN", addr);
    let b = InputBinding { address: local, alias: None, source: InputSource::Ref(addr.to_string()) };
    match &mut n.inputs {
        Some(bs) => bs.push(b),
        None => n.inputs = Some(vec![b]),
    }
    n
}

fn num(x: u64) -> JsonValue {
    JsonValue::Number(JsonNumber::PosInt(x))
}

fn trace(node: &str, status: &str, results: Vec<(&str, bool, &str)>) -> NodeTrace {
    NodeTrace {
        node: node.to_string(),
        intent: String::new(),
        safety: String::new(),
        status: status.to_string(),
        duration_ms: 0,
        output: JsonValue::Null,
        validation_results: results
            .into_iter()
            .map(|(a, p, act)| ValidationResult { assertion: a.to_string(), passed: p, action: act.to_string() })
            .collect(),
        depends_on: vec![],
        asl_match: None,
        asl_warnings: vec![],
        heal_log: vec![],
    }
}

#[test]
fn default_config_is_state_mod_with_registry() {
    let c = ExecutionConfig::default();
    assert_eq!(c.auto_approve_level, SafetyLevel::L2StateMod);
    assert!(c.use_registry);
    assert!(!c.strict_registry);
}

#[test]
fn safety_gate_blocks_nodes_above_the_threshold() {
    let n = with_safety(node("0x1A"), "post", SafetyLevel::L3NetEgress);
    assert_eq!(
        check_safety(&n, &SafetyLevel::L2StateMod).unwrap_err(),
        "Node 0x1A requires L3 (Net-Egress) but auto-approve is set to L2 (State-Mod). Execution blocked."
    );
    assert!(check_safety(&n, &SafetyLevel::L3NetEgress).is_ok());
    assert!(check_safety(&n, &SafetyLevel::L4SystemRoot).is_ok());
    assert!(check_safety(&node("0x2B"), &SafetyLevel::L0Pure).is_ok());
}

#[test]
fn blocked_node_finishes_before_running() {
    let n = with_safety(node("0x1A"), "post", SafetyLevel::L4SystemRoot);
    let h = node_header(&n, None, false);
    let l = StateLedger::new();
    match before_guest(&n, &h, &l, &SafetyLevel::L2StateMod, &vec![]) {
        PreGuest::Finish(t, ok) => {
            assert!(!ok);
            assert_eq!(t.status, "BLOCKED");
            assert_eq!(t.safety, "L4 (System-Root)");
            assert_eq!(
                to_json_text(&t.output),
                "{\"error\":\"Node 0x1A requires L4 (System-Root) but auto-approve is set to L2 (State-Mod). Execution blocked.\"}"
            );
        }
        _ => panic!("expected a blocked node"),
    }
}

#[test]
fn false_condition_skips_and_inputs_are_resolved() {
    let mut l = StateLedger::new();
    l.write("$0xSRC", num(7), None).unwrap();
    let mut skip = node("0x1A");
    skip.condition = Some(Expr::Bool(false));
    let h = node_header(&skip, None, false);
    match before_guest(&skip, &h, &l, &SafetyLevel::L2StateMod, &vec![]) {
        PreGuest::Finish(t, ok) => {
            assert!(ok);
            assert_eq!(t.status, "SKIPPED");
            assert_eq!(to_json_text(&t.output), "{\"reason\":\"Condition evaluated to false\"}");
        }
        _ => panic!("expected a skipped node"),
    }
    let mut run = reading(node("0x2B"), "$0xSRC");
    let mut ins = run.inputs.take().unwrap();
    ins.push(InputBinding { address: String::from("$0xLIT"), alias: None, source: InputSource::Literal(AetherValue::String(String::from("v"))) });
    ins.push(InputBinding { address: String::from("$0xGONE"), alias: None, source: InputSource::Ref(String::from("$0xNONE")) });
    run.inputs = Some(ins);
    let h2 = node_header(&run, None, false);
    match before_guest(&run, &h2, &l, &SafetyLevel::L2StateMod, &vec![]) {
        PreGuest::Run(inputs) => {
            assert_eq!(to_json_text(&inputs), "{\"$0xGONE\":null,\"$0xLIT\":\"v\",\"$0xSRC_IN\":7}");
        }
        _ => panic!("expected the node to run"),
    }
    let mut broken = node("0x3C");
    broken.condition = Some(Expr::Address(String::from("$0xMISSING")));
    let h3 = node_header(&broken, None, false);
    match before_guest(&broken, &h3, &l, &SafetyLevel::L2StateMod, &vec![]) {
        PreGuest::Finish(t, ok) => {
            assert!(!ok);
            assert_eq!(t.status, "ERROR");
            assert_eq!(to_json_text(&t.output), "{\"error\":\"Condition eval error: Address $0xMISSING not found in ledger\"}");
        }
        _ => panic!("expected a condition error"),
    }
}

#[test]
fn node_header_carries_registry_match_and_warning() {
    let reg = AslRegistry {
        version: String::from("1"),
        entries: vec![AslEntry {
            id: String::from("std.io.net_get"),
            description: String::new(),
            safety: String::from("l1"),
            recommended_lang: None,
            namespace: String::from("std.io"),
        }],
    };
    let n = with_safety(node("0x1A"), "std.io.net_get", SafetyLevel::L0Pure);
    let h = node_header(&n, Some(&reg), false);
    assert_eq!(h.intent, "std.io.net_get");
    assert_eq!(h.asl_match.as_deref(), Some("std.io.net_get"));
    assert_eq!(h.asl_warnings, vec![String::from("ASL safety mismatch: intent 'std.io.net_get' recommends 'L1', declared 'L0'")]);
    let plain = node_header(&node("0x2B"), Some(&reg), false);
    assert_eq!(plain.intent, "");
    assert!(plain.asl_match.is_none());
    assert_eq!(plain.safety, "L0 (Pure)");
}

#[test]
fn completed_node_writes_its_outputs() {
    let n = producing(node("0x1A"), "$0xOUT", AetherType::Int);
    let h = node_header(&n, None, false);
    let mut l = StateLedger::new();
    match after_guest(&n, &h, &mut l, Ok(num(5)), &vec![]) {
        PostGuest::Finish(t, ok) => {
            assert!(ok);
            assert_eq!(t.status, "COMPLETED");
            assert_eq!(to_json_text(&t.output), "5");
        }
        _ => panic!("expected completion"),
    }
    assert_eq!(l.read("$0xOUT").map(to_json_text), Some(String::from("5")));
}

#[test]
fn type_error_and_guest_error_outcomes() {
    let n = producing(node("0x1A"), "$0xOUT", AetherType::String);
    let h = node_header(&n, None, false);
    let mut l = StateLedger::new();
    match after_guest(&n, &h, &mut l, Ok(num(5)), &vec![]) {
        PostGuest::Finish(t, ok) => {
            assert!(!ok);
            assert_eq!(t.status, "TYPE_ERROR");
            assert_eq!(to_json_text(&t.output), "{\"error\":\"Type mismatch for $0xOUT: expected String, got 5\",\"raw_output\":5}");
        }
        _ => panic!("expected a type error"),
    }
    assert!(l.read("$0xOUT").is_none());
    match after_guest(&n, &h, &mut l, Err(String::from("boom")), &vec![]) {
        PostGuest::Finish(t, ok) => {
            assert!(!ok);
            assert_eq!(t.status, "EXEC_ERROR");
            assert_eq!(to_json_text(&t.output), "{\"error\":\"boom\"}");
        }
        _ => panic!("expected an execution error"),
    }
}

#[test]
fn failed_validation_restores_the_ledger() {
    let mut n = producing(node("0x1A"), "$0xOUT", AetherType::JSON);
    n.validation = Some(vec![
        Assertion { condition: Expr::Bool(false), on_fail: HaltAction::Warn },
        Assertion {
            condition: Expr::BinOp { left: Box::new(Expr::Address(String::from("$0xOUT"))), op: BinOperator::Eq, right: Box::new(Expr::Str(String::from("ok"))) },
            on_fail: HaltAction::Retry(Some(2)),
        },
    ]);
    let h = node_header(&n, None, false);
    let mut l = StateLedger::new();
    l.write("$0xPREV", JsonValue::String(String::from("old")), None).unwrap();
    let t = match after_guest(&n, &h, &mut l, Ok(JsonValue::String(String::from("bad"))), &vec![]) {
        PostGuest::Finish(t, ok) => {
            assert!(!ok);
            t
        }
        _ => panic!("expected a finished node"),
    };
    assert_eq!(t.status, "VALIDATION_FAILED");
    assert_eq!(t.validation_results.len(), 2);
    assert_eq!(t.validation_results[0].assertion, "Bool(false)");
    assert_eq!(t.validation_results[0].action, "WARN");
    assert_eq!(t.validation_results[1].assertion, "BinOp { left: Address(\"$0xOUT\"), op: Eq, right: Str(\"ok\") }");
    assert!(!t.validation_results[1].passed);
    assert_eq!(t.validation_results[1].action, "RETRY");
    assert!(l.read("$0xOUT").is_none());
    assert_eq!(l.read("$0xPREV").map(to_json_text), Some(String::from("\"old\"")));
    assert_eq!(l.export().len(), 1);
    assert_eq!(retry_target(&t).as_deref(), Some("BinOp { left: Address(\"$0xOUT\"), op: Eq, right: Str(\"ok\") }"));
    assert_eq!(max_retries(&n), 2);

    match after_guest(&n, &h, &mut l, Ok(JsonValue::String(String::from("ok"))), &vec![]) {
        PostGuest::Finish(t2, ok) => {
            assert!(ok);
            assert_eq!(t2.status, "COMPLETED");
            assert!(!t2.validation_results[0].passed);
        }
        _ => panic!("expected completion"),
    }
    assert_eq!(l.read("$0xOUT").map(to_json_text), Some(String::from("\"ok\"")));
}

#[test]
fn retry_limits_and_targets() {
    let mut n = node("0x1A");
    assert_eq!(max_retries(&n), 0);
    n.validation = Some(vec![
        Assertion { condition: Expr::Bool(true), on_fail: HaltAction::Retry(None) },
        Assertion { condition: Expr::Bool(true), on_fail: HaltAction::Retry(Some(1)) },
        Assertion { condition: Expr::Bool(true), on_fail: HaltAction::Halt },
    ]);
    assert_eq!(max_retries(&n), 3);
    assert!(retry_target(&trace("0x1A", "COMPLETED", vec![("x", false, "RETRY")])).is_none());
    assert!(retry_target(&trace("0x1A", "VALIDATION_FAILED", vec![("x", false, "HALT")])).is_none());
    assert_eq!(
        retry_target(&trace("0x1A", "VALIDATION_FAILED", vec![("a", true, "RETRY"), ("b", false, "RETRY"), ("c", false, "RETRY")])).as_deref(),
        Some("b")
    );
}

#[test]
fn healing_loop_logs_each_attempt() {
    let mut n = node("0x1A");
    n.validation = Some(vec![Assertion { condition: Expr::Bool(false), on_fail: HaltAction::Retry(Some(2)) }]);
    let failed = trace("0x1A", "VALIDATION_FAILED", vec![("Bool(false)", false, "RETRY")]);
    let mut h = HealLoop::new(&n);
    assert_eq!(h.max(), 2);
    assert_eq!(h.attempt(), 0);
    match h.next(&failed) {
        HealStep::Heal(a) => assert_eq!(a, "Bool(false)"),
        HealStep::Stop => panic!("expected healing"),
    }
    h.healed();
    assert_eq!(h.attempt(), 1);
    match h.next(&failed) {
        HealStep::Heal(_) => {}
        HealStep::Stop => panic!("expected a second attempt"),
    }
    h.heal_failed("ANTHROPIC_API_KEY not set");
    assert!(matches!(h.next(&failed), HealStep::Stop));
    assert_eq!(h.attempt(), 2);
    assert_eq!(
        *h.log(),
        vec![
            String::from("[attempt 1] validation failed on: Bool(false)"),
            String::from("[attempt 1] LLM healing applied"),
            String::from("[attempt 2] validation failed on: Bool(false)"),
            String::from("[attempt 2] healing unavailable: ANTHROPIC_API_KEY not set"),
        ]
    );
    let done = trace("0x1A", "COMPLETED", vec![]);
    let mut h2 = HealLoop::new(&n);
    assert!(matches!(h2.next(&done), HealStep::Stop));
    assert!(h2.into_log().is_empty());
}

#[test]
fn heal_prompt_names_the_failure() {
    let n = with_safety(node("0x1A"), "count things", SafetyLevel::L0Pure);
    let p = heal_prompt(&n, "return 0", "Bool(false)", &JsonValue::Array(vec![num(1)]));
    assert!(p.starts_with("You are fixing a failing Aether action node.\n\nNode intent: count things\nLanguage: Python\n\nCode that failed:\nreturn 0\n\nFailed validation assertion: Bool(false)\nActual output was: [\n  1\n]\n\nReturn ONLY the corrected Python code."));
    let mut js = node("0x2B");
    js.language = GuestLang::JS;
    let q = heal_prompt(&js, "x", "a", &JsonValue::Null);
    assert!(q.contains("Node intent: unknown intent\nLanguage: JavaScript\n"));
    assert!(q.contains("Actual output was: null\n"));
}

#[test]
fn schedule_orders_producers_first() {
    let a = producing(node("0x1A"), "$0xA", AetherType::JSON);
    let b = producing(reading(node("0x2B"), "$0xA"), "$0xB", AetherType::JSON);
    let c = producing(reading(node("0x2C"), "$0xA"), "$0xC", AetherType::JSON);
    let d = reading(reading(node("0x3D"), "$0xB"), "$0xC");
    let blocks = link_dependencies(vec![
        Block::Action(d),
        Block::Parallel(ParallelBlock { id: None, nodes: vec![b, c] }),
        Block::Action(a),
    ]);
    let nodes = collect_actions(&blocks);
    assert_eq!(nodes.len(), 4);
    assert_eq!(nodes[0].depends_on, vec![String::from("0x2B"), String::from("0x2C")]);
    assert_eq!(nodes[1].depends_on, vec![String::from("0x1A")]);
    assert!(nodes[3].depends_on.is_empty());
    let levels = topological_sort(&nodes).unwrap();
    assert_eq!(levels.len(), 3);
    assert_eq!(levels[0], vec![String::from("0x1A")]);
    assert_eq!(levels[1], vec![String::from("0x2B"), String::from("0x2C")]);
    assert_eq!(levels[2], vec![String::from("0x3D")]);
    assert_eq!(dependency_ids(&nodes, nodes[0]), vec![String::from("0x2B"), String::from("0x2C")]);
    assert_eq!(level_nodes(&nodes, &levels[0]), vec![3]);
}

#[test]
fn levels_list_nodes_in_given_order_and_are_never_empty() {
    let make = || {
        (producing(node("A"), "$0xX", AetherType::JSON), reading(node("B"), "$0xX"), reading(node("C"), "$0xCTX"))
    };
    let (a, b, c) = make();
    let blocks = link_dependencies(vec![Block::Action(a), Block::Action(b), Block::Action(c)]);
    let levels = topological_sort(&collect_actions(&blocks)).unwrap();
    assert_eq!(levels, vec![vec![String::from("A"), String::from("C")], vec![String::from("B")]]);
    let (a, b, c) = make();
    let reversed = link_dependencies(vec![Block::Action(c), Block::Action(b), Block::Action(a)]);
    let levels2 = topological_sort(&collect_actions(&reversed)).unwrap();
    assert_eq!(levels2, vec![vec![String::from("C"), String::from("A")], vec![String::from("B")]]);
    let none: Vec<&ActionNode> = vec![];
    assert_eq!(topological_sort(&none), Ok(vec![]));
}

#[test]
fn schedule_refuses_cycles_and_duplicate_ids() {
    let a = producing(reading(node("0x1A"), "$0xB"), "$0xA", AetherType::JSON);
    let b = producing(reading(node("0x2B"), "$0xA"), "$0xB", AetherType::JSON);
    let blocks = link_dependencies(vec![Block::Action(a), Block::Action(b)]);
    let nodes = collect_actions(&blocks);
    assert_eq!(topological_sort(&nodes).unwrap_err(), "Circular dependency detected in action nodes");
    let dup = vec![Block::Action(node("0x1A")), Block::Action(node("0x1A"))];
    let dn = collect_actions(&dup);
    assert_eq!(topological_sort(&dn).unwrap_err(), "Circular dependency detected in action nodes");
    let selfdep = link_dependencies(vec![Block::Action(producing(reading(node("0x1A"), "$0xA"), "$0xA", AetherType::JSON))]);
    assert!(topological_sort(&collect_actions(&selfdep)).is_err());
}

#[test]
fn context_blocks_load_into_the_ledger() {
    let blocks = vec![
        Block::Context(ContextBlock {
            id: None,
            data: vec![
                (String::from("$0xURL"), AetherValue::String(String::from("https://x"))),
                (String::from("$0xN"), AetherValue::Int(3)),
            ],
        }),
        Block::Action(node("0x1A")),
    ];
    let mut l = StateLedger::new();
    assert!(load_context(&mut l, &blocks).is_ok());
    assert_eq!(l.read("$0xURL").map(to_json_text), Some(String::from("\"https://x\"")));
    assert_eq!(l.read("$0xN").map(to_json_text), Some(String::from("3")));
    // A second context block naming a written address is refused.
    let again = vec![Block::Context(ContextBlock {
        id: None,
        data: vec![(String::from("$0xN"), AetherValue::Int(4))],
    })];
    assert_eq!(
        load_context(&mut l, &again),
        Err(String::from("Address $0xN is already written; the ledger is append-only"))
    );
    assert_eq!(l.read("$0xN").map(to_json_text), Some(String::from("3")));
}

#[test]
fn an_output_address_already_written_is_refused() {
    let n = producing(node("0x1A"), "$0xOUT", AetherType::Int);
    let h = node_header(&n, None, false);
    let mut l = StateLedger::new();
    l.write("$0xOUT", num(1), None).unwrap();
    match after_guest(&n, &h, &mut l, Ok(num(5)), &vec![]) {
        PostGuest::Finish(t, ok) => {
            assert!(!ok);
            assert_eq!(t.status, "TYPE_ERROR");
            assert_eq!(
                to_json_text(&t.output),
                "{\"error\":\"Address $0xOUT is already written; the ledger is append-only\",\"raw_output\":5}"
            );
        }
        _ => panic!("expected a refused write"),
    }
    assert_eq!(l.read("$0xOUT").map(to_json_text), Some(String::from("1")));
}

#[test]
fn run_status_counts_failures() {
    let ts = vec![trace("a", "COMPLETED", vec![]), trace("b", "SKIPPED", vec![])];
    assert_eq!(count_failures(&ts), 0);
    assert_eq!(global_status(count_failures(&ts)), "SUCCESS");
    let ts2 = vec![trace("a", "COMPLETED", vec![]), trace("b", "BLOCKED", vec![]), trace("c", "TYPE_ERROR", vec![])];
    assert_eq!(count_failures(&ts2), 2);
    assert_eq!(global_status(2), "PARTIAL_FAILURE");
}

#[test]
fn traces_get_their_dependency_ids() {
    let a = producing(node("0x1A"), "$0xA", AetherType::JSON);
    let b = reading(node("0x2B"), "$0xA");
    let blocks = link_dependencies(vec![Block::Action(a), Block::Action(b)]);
    let nodes = collect_actions(&blocks);
    let mut ts = vec![trace("0x1A", "COMPLETED", vec![]), trace("0x2B", "COMPLETED", vec![]), trace("0x9Z", "COMPLETED", vec![])];
    annotate_dependencies(&mut ts, 1, &nodes);
    assert!(ts[0].depends_on.is_empty());
    assert_eq!(ts[1].depends_on, vec![String::from("0x1A")]);
    assert!(ts[2].depends_on.is_empty());
}

#[test]
fn root_runs_hand_out_each_level_once_in_order() {
    let a = producing(node("0x1A"), "$0xA", AetherType::JSON);
    let b = producing(reading(node("0x2B"), "$0xA"), "$0xB", AetherType::JSON);
    let c = producing(reading(node("0x2C"), "$0xA"), "$0xC", AetherType::JSON);
    let d = reading(reading(node("0x3D"), "$0xB"), "$0xC");
    let blocks = link_dependencies(vec![
        Block::Action(d),
        Block::Parallel(ParallelBlock { id: None, nodes: vec![b, c] }),
        Block::Action(a),
    ]);
    let nodes = collect_actions(&blocks);
    let mut run = RootRun::plan(&nodes).unwrap();
    let mut seen: Vec<Vec<usize>> = vec![];
    while let RunStep::Level(p) = run.step() {
        seen.push(p);
    }
    assert_eq!(seen, vec![vec![3], vec![1, 2], vec![0]]);
    assert!(matches!(run.step(), RunStep::Done));

    let x = producing(reading(node("0x1A"), "$0xB"), "$0xA", AetherType::JSON);
    let y = producing(reading(node("0x2B"), "$0xA"), "$0xB", AetherType::JSON);
    let cyc = link_dependencies(vec![Block::Action(x), Block::Action(y)]);
    assert_eq!(RootRun::plan(&collect_actions(&cyc)).err(), Some(String::from("Circular dependency detected in action nodes")));
}
