use aether_kernel::ast::{AetherProgram, Block, ContextBlock, GuestLang, RootBlock, SafetyLevel};
use aether_kernel::cli::{
    call_parts, command_of, count_action_nodes, is_short_path, ledger_display, mcp_method,
    method_not_found, parse_audit_args, parse_run_args, parse_translate_args, requested_safety,
    tool_request, Command, McpMethod, RunArgs, ToolRequest, TranslateArgs,
};
use aether_kernel::json::{members_insert, to_json_text, JsonNumber, JsonValue};
use aether_kernel::registry::{AslEntry, AslRegistry};
use aether_kernel::short::{collect_code_block, expand, expand_node, parse_lang_hint};

fn reg() -> AslRegistry {
    AslRegistry {
        version: String::from("1"),
        entries: vec![
            AslEntry {
                id: String::from("std.io.net_get"),
                description: String::new(),
                safety: String::from("l1"),
                recommended_lang: Some(String::from("PYTHON")),
                namespace: String::from("std.io"),
            },
            AslEntry {
                id: String::from("std.proc.list.filter"),
                description: String::new(),
                safety: String::from("l0"),
                recommended_lang: Some(String::from("JS")),
                namespace: String::from("std.proc"),
            },
        ],
    }
}

fn strings(v: &[&str]) -> Vec<String> {
    v.iter().map(|s| s.to_string()).collect()
}

#[test]
fn lang_hints_are_split_off() {
    assert_eq!(parse_lang_hint("  python {"), (Some("python"), String::from("{")));
    assert_eq!(parse_lang_hint("js{"), (Some("js"), String::from("{")));
    assert_eq!(parse_lang_hint("shell   x"), (Some("shell"), String::from("x")));
    assert_eq!(parse_lang_hint("  {"), (None, String::from("{")));
}

#[test]
fn code_blocks_close_on_the_balancing_brace() {
    let lines = strings(&["  x = {1: 2}", "  return x", "} | ASSERT len($0xA) > 0 OR HALT", "after"]);
    let (code, clause, used) = collect_code_block(&lines).unwrap();
    assert_eq!(code, "  x = {1: 2}\n  return x");
    assert_eq!(clause.as_deref(), Some("ASSERT len($0xA) > 0 OR HALT"));
    assert_eq!(used, 3);
    let (code2, clause2, used2) = collect_code_block(&strings(&["return 1 }"])).unwrap();
    assert_eq!(code2, "return 1");
    assert!(clause2.is_none());
    assert_eq!(used2, 1);
    assert_eq!(collect_code_block(&strings(&["a", "b"])).unwrap_err(), "Unclosed '{' in Aether-Short code block");
}

#[test]
fn node_lines_expand_to_action_nodes() {
    let (text, used) = expand_node("$0xUSERS: JSON = @std.io.net_get($0xURL, ) {", &strings(&["  return 1", "}"]), &reg(), 1).unwrap();
    assert_eq!(used, 2);
    assert_eq!(
        text,
        "  \u{a7}ACT 0xA01 {\n    ::META {\n      _intent: \"std.io.net_get\",\n      _safety: \"read_only\"\n    }\n    ::IN {\n      $0xURL: Ref($0xURL)\n    }\n    ::EXEC<PYTHON> {\n      return 1\n    }\n    ::OUT {\n      $0xUSERS: Type<JSON>\n    }\n  }\n\n"
    );
    let (t2, used2) = expand_node("$0xX: Int = @custom.thing shell", &strings(&[]), &reg(), 26).unwrap();
    assert_eq!(used2, 0);
    assert!(t2.starts_with("  \u{a7}ACT 0xA1A {\n"));
    assert!(t2.contains("_safety: \"pure\""));
    assert!(t2.contains("::EXEC<SHELL> {\n    }\n"));
    let (t3, _) = expand_node("$0xY: List = @std.proc.list.filter($0xX) {", &strings(&["return []", "} | ASSERT true OR WARN"]), &reg(), 3).unwrap();
    assert!(t3.contains("::EXEC<JS> {\n      return []\n    }\n"));
    assert!(t3.contains("    ::VALIDATE {\n      ASSERT true OR WARN\n    }\n"));
}

#[test]
fn expanded_nodes_declare_safety_and_language() {
    let tags = [("l0", "pure"), ("l1", "read_only"), ("l2", "state_mod"), ("l3", "net_egress"), ("l4", "system_root"), ("l9", "pure")];
    for (tag, name) in tags.iter() {
        let r = AslRegistry {
            version: String::from("1"),
            entries: vec![AslEntry {
                id: String::from("ns.op"),
                description: String::new(),
                safety: tag.to_string(),
                recommended_lang: None,
                namespace: String::from("ns"),
            }],
        };
        let (t, _) = expand_node("$0xA: Int = @ns.op", &strings(&[]), &r, 1).unwrap();
        assert!(t.contains(&format!("_safety: \"{}\"", name)));
        assert!(t.contains("::EXEC<PYTHON>"));
        let (tj, _) = expand_node("$0xA: Int = @ns.op js", &strings(&[]), &r, 1).unwrap();
        assert!(tj.contains("::EXEC<JS>"));
    }
    let (tp, _) = expand_node("$0xA: Int = @std.proc.list.filter python", &strings(&[]), &reg(), 1).unwrap();
    assert!(tp.contains("::EXEC<PYTHON>"));
    let (tr, _) = expand_node("$0xA: Int = @std.proc.list.filter", &strings(&[]), &reg(), 1).unwrap();
    assert!(tr.contains("::EXEC<JS>"));
    assert!(tr.contains("_safety: \"pure\""));
}

#[test]
fn node_header_errors() {
    assert_eq!(
        expand_node("$0xA = @x", &strings(&[]), &reg(), 1).unwrap_err(),
        "Expected ':' in output declaration: $0xA"
    );
    assert_eq!(
        expand_node("$0xA: Int = x", &strings(&[]), &reg(), 1).unwrap_err(),
        "Expected '@intent' on RHS: x"
    );
    assert_eq!(
        expand_node("$0xA: Int = @f(a, b", &strings(&[]), &reg(), 1).unwrap_err(),
        "Missing ')': (a, b"
    );
}

#[test]
fn pipelines_expand_to_root_blocks() {
    let src = "// demo\n@pipeline 0xFF_DEMO\n  ::CTX {\n    $0xURL: \"u\"\n  }\n  $0xA: JSON = @std.io.net_get($0xURL) {\n    return 1\n  }\n  $0xB: JSON = @std.proc.list.filter($0xA) python {\n    return []\n  } | ASSERT len($0xB) >= 0 OR HALT\n@end\n";
    let out = expand(src, &reg()).unwrap();
    assert!(out.starts_with("\u{a7}ROOT 0xFF_DEMO {\n\n  ::CTX {\n      $0xURL: \"u\"\n    }\n\n  \u{a7}ACT 0xA01 {\n"));
    assert!(out.contains("  \u{a7}ACT 0xA02 {\n"));
    assert!(out.contains("::EXEC<PYTHON> {\n      return []\n    }\n"));
    assert!(out.ends_with("    ::VALIDATE {\n      ASSERT len($0xB) >= 0 OR HALT\n    }\n  }\n\n}\n"));
    let anon = expand("@pipeline\n@end\n", &reg()).unwrap();
    assert_eq!(anon, "\u{a7}ROOT 0xFF_MAIN {\n\n}\n");
}

#[test]
fn pipeline_errors() {
    assert_eq!(expand("just text\n", &reg()).unwrap_err(), "No @pipeline blocks found in Aether-Short source");
    assert_eq!(expand("@pipeline X\n$0xA: Int = @f {\n", &reg()).unwrap_err(), "Unclosed '{' in Aether-Short code block");
    assert_eq!(expand("@pipeline X\n", &reg()).unwrap_err(), "Unexpected end of file \u{2014} missing @end");
}

#[test]
fn commands_and_run_options() {
    assert!(matches!(command_of(&strings(&["aether"])), Command::Usage));
    assert!(matches!(command_of(&strings(&["aether", "gen", "x"])), Command::Translate));
    assert!(matches!(command_of(&strings(&["aether", "-v"])), Command::Version));
    assert!(matches!(command_of(&strings(&["aether", "a.ae"])), Command::Run));
    match parse_run_args(&strings(&["a.ae", "-s", "L3", "-o", "log.json", "--strict-registry", "b.as"])).unwrap() {
        RunArgs::Run(o) => {
            assert_eq!(o.file, "b.as");
            assert_eq!(o.safety, SafetyLevel::L3NetEgress);
            assert_eq!(o.output, "log.json");
            assert!(o.strict_registry);
            assert!(!o.no_registry);
            assert!(!o.expand_only);
        }
        _ => panic!("expected options"),
    }
    assert_eq!(parse_run_args(&strings(&["-s", "max"])).err(), Some(String::from("Unknown safety level: max")));
    assert_eq!(parse_run_args(&strings(&["-e"])).err(), Some(String::from("No input file specified")));
    assert!(matches!(parse_run_args(&strings(&["x.ae", "--help", "-s", "bad"])), Ok(RunArgs::Help)));
    assert!(is_short_path("p.as"));
    assert!(!is_short_path("p.ae"));
    assert!(!is_short_path("as"));
}

#[test]
fn translate_and_audit_options() {
    match parse_translate_args(&strings(&["count users", "--run", "-o", "p.ae"])).unwrap() {
        TranslateArgs::Translate(o) => {
            assert_eq!(o.description, "count users");
            assert!(o.run_after);
            assert_eq!(o.output.as_deref(), Some("p.ae"));
            assert_eq!(o.safety, SafetyLevel::L2StateMod);
        }
        TranslateArgs::Help => panic!("expected options"),
    }
    assert_eq!(
        parse_translate_args(&strings(&["--run"])).err(),
        Some(String::from("No description provided.\nUsage: aether translate \"<natural language description>\" [--run] [-o output.ae]"))
    );
    assert_eq!(parse_audit_args(&strings(&[])).as_deref(), Some("output.ae.json"));
    assert_eq!(parse_audit_args(&strings(&["a.json", "b.json"])).as_deref(), Some("b.json"));
    assert!(parse_audit_args(&strings(&["-h"])).is_none());
}

#[test]
fn action_nodes_are_counted_outside_parallel_blocks() {
    let p = AetherProgram {
        roots: vec![RootBlock {
            id: String::from("0xFF"),
            blocks: vec![Block::Context(ContextBlock { id: None, data: vec![] })],
        }],
    };
    assert_eq!(count_action_nodes(&p), 0);
}

#[test]
fn ledger_values_are_shown_briefly() {
    assert_eq!(ledger_display(&JsonValue::String(String::from("hi"))), "\"hi\"");
    assert_eq!(ledger_display(&JsonValue::Number(JsonNumber::PosInt(12))), "12");
    let long = JsonValue::Array((0..40).map(|i| JsonValue::Number(JsonNumber::PosInt(i))).collect());
    let shown = ledger_display(&long);
    assert_eq!(shown.len(), 83);
    assert!(shown.ends_with("..."));
    assert!(to_json_text(&long).starts_with(&shown[..80]));
}

#[test]
fn tool_calls_and_methods() {
    let mut ms = Vec::new();
    members_insert(&mut ms, String::from("code"), JsonValue::String(String::from("src")));
    members_insert(&mut ms, String::from("safety_level"), JsonValue::String(String::from("l4")));
    let args = JsonValue::Object(ms);
    match tool_request("aether_execute", &args).unwrap() {
        ToolRequest::Execute(code, l) => {
            assert_eq!(code, "src");
            assert_eq!(l, SafetyLevel::L4SystemRoot);
        }
        _ => panic!("expected execution"),
    }
    assert!(matches!(tool_request("aether_validate", &args), Ok(ToolRequest::Validate(_))));
    assert_eq!(tool_request("aether_audit", &args).err(), Some(String::from("Missing 'execution_log' argument")));
    assert_eq!(tool_request("aether_inspect", &JsonValue::Null).err(), Some(String::from("Missing 'execution_id' argument")));
    assert_eq!(tool_request("other", &args).err(), Some(String::from("Unknown tool: other")));
    assert_eq!(requested_safety(None), Ok(SafetyLevel::L2StateMod));
    assert_eq!(requested_safety(Some("nope")), Err(String::from("Unknown safety level: nope")));
    assert!(matches!(mcp_method("tools/call"), McpMethod::ToolsCall));
    assert!(matches!(mcp_method("notifications/initialized"), McpMethod::Initialized));
    assert!(matches!(mcp_method("x"), McpMethod::Unknown));
    assert_eq!(method_not_found("x"), "Method not found: x");
    let mut pm = Vec::new();
    members_insert(&mut pm, String::from("name"), JsonValue::String(String::from("aether_validate")));
    let (name, a) = call_parts(&JsonValue::Object(pm));
    assert_eq!(name, "aether_validate");
    assert_eq!(to_json_text(&a), "{}");
    let _ = GuestLang::Python;
}
