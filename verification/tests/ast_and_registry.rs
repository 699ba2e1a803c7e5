use aether_kernel::ast::{AetherType, GuestLang, SafetyLevel};
use aether_kernel::json::{FloatRepr, JsonNumber, JsonValue};
use aether_kernel::registry::{AslEntry, AslRegistry};

fn entry(id: &str, safety: &str, lang: Option<&str>, ns: &str) -> AslEntry {
    AslEntry {
        id: id.to_string(),
        description: String::from("d"),
        safety: safety.to_string(),
        recommended_lang: lang.map(|s| s.to_string()),
        namespace: ns.to_string(),
    }
}

fn registry() -> AslRegistry {
    AslRegistry {
        version: String::from("1"),
        entries: vec![
            entry("std.io.net_get", "l1", Some("PYTHON"), "std.io"),
            entry("std.io.net_post", "l3", Some("PYTHON"), "std.io"),
            entry("std.proc.list.filter", "l0", None, "std.proc"),
        ],
    }
}

#[test]
fn safety_level_reads_names_and_tags_case_insensitively() {
    assert_eq!(SafetyLevel::from_str("pure"), Some(SafetyLevel::L0Pure));
    assert_eq!(SafetyLevel::from_str("L1"), Some(SafetyLevel::L1ReadOnly));
    assert_eq!(SafetyLevel::from_str("State_Mod"), Some(SafetyLevel::L2StateMod));
    assert_eq!(SafetyLevel::from_str("full_egress"), Some(SafetyLevel::L3NetEgress));
    assert_eq!(SafetyLevel::from_str("net_egress"), Some(SafetyLevel::L3NetEgress));
    assert_eq!(SafetyLevel::from_str("l4"), Some(SafetyLevel::L4SystemRoot));
    assert_eq!(SafetyLevel::from_str("root"), None);
    assert_eq!(SafetyLevel::from_str(""), None);
}

#[test]
fn safety_level_labels_and_approval() {
    assert_eq!(SafetyLevel::L0Pure.label(), "L0 (Pure)");
    assert_eq!(SafetyLevel::L2StateMod.label(), "L2 (State-Mod)");
    assert_eq!(SafetyLevel::L4SystemRoot.label(), "L4 (System-Root)");
    assert!(!SafetyLevel::L2StateMod.requires_approval());
    assert!(SafetyLevel::L3NetEgress.requires_approval());
    assert!(SafetyLevel::L4SystemRoot.requires_approval());
    assert!(SafetyLevel::L3NetEgress.exceeds(&SafetyLevel::L2StateMod));
    assert!(!SafetyLevel::L2StateMod.exceeds(&SafetyLevel::L2StateMod));
    assert_eq!(SafetyLevel::L3NetEgress.short_tag(), "l3");
    assert_eq!(SafetyLevel::L1ReadOnly.rank(), 1);
}

#[test]
fn short_tags_read_back_as_their_level() {
    let all = [
        SafetyLevel::L0Pure,
        SafetyLevel::L1ReadOnly,
        SafetyLevel::L2StateMod,
        SafetyLevel::L3NetEgress,
        SafetyLevel::L4SystemRoot,
    ];
    for l in all {
        assert_eq!(SafetyLevel::from_str(l.short_tag()), Some(l));
    }
}

#[test]
fn aether_types_parse_and_validate() {
    assert_eq!(AetherType::from_str("JSON"), Some(AetherType::JSON));
    assert_eq!(AetherType::from_str("Map"), Some(AetherType::MapType));
    assert_eq!(AetherType::from_str("JSON_Object"), Some(AetherType::JSONObject));
    assert_eq!(AetherType::from_str("json"), None);
    let int = JsonValue::Number(JsonNumber::PosInt(3));
    let neg = JsonValue::Number(JsonNumber::NegInt(-3));
    let float = JsonValue::Number(JsonNumber::Float(FloatRepr { bits: 1.5f64.to_bits(), text: String::from("1.5") }));
    assert!(AetherType::Int.validate(&int));
    assert!(AetherType::Int.validate(&neg));
    assert!(!AetherType::Int.validate(&float));
    assert!(AetherType::Float.validate(&float));
    assert!(!AetherType::JSON.validate(&JsonValue::Null));
    assert!(AetherType::JSON.validate(&JsonValue::Bool(true)));
    assert!(AetherType::Table.validate(&JsonValue::Array(vec![])));
    assert!(!AetherType::List.validate(&JsonValue::Object(vec![])));
    assert_eq!(AetherType::MapType.debug_name(), "Map");
    assert_eq!(AetherType::JSONString.debug_name(), "JSONString");
    let text = |x: &str| JsonValue::String(String::from(x));
    assert!(AetherType::JSONString.validate(&text("{\"a\": [1, 2]}")));
    assert!(!AetherType::JSONString.validate(&text("not json")));
    assert!(!AetherType::JSONString.validate(&JsonValue::Bool(true)));
    assert!(AetherType::String.validate(&text("not json")));
    assert!(AetherType::Blob.validate(&text("aGVsbG8=")));
    assert!(AetherType::Blob.validate(&text("aGk=")));
    assert!(AetherType::Blob.validate(&text("")));
    assert!(!AetherType::Blob.validate(&text("aGVsbG8")));
    assert!(!AetherType::Blob.validate(&text("a=Gk")));
    assert!(!AetherType::Blob.validate(&text("hello!!!")));
    assert!(AetherType::Ref.validate(&text("hello!!!")));
}

#[test]
fn guest_languages_parse_upper_case_tags() {
    assert_eq!(GuestLang::from_str("PYTHON"), Some(GuestLang::Python));
    assert_eq!(GuestLang::from_str("TEXT_GEN"), Some(GuestLang::TextGen));
    assert_eq!(GuestLang::from_str("python"), None);
}

#[test]
fn registry_lookup_and_namespace() {
    let reg = registry();
    assert_eq!(reg.lookup("std.io.net_post").map(|e| e.safety.clone()), Some(String::from("l3")));
    assert!(reg.lookup("std.io.nope").is_none());
    let io: Vec<String> = reg.namespace("std.io").iter().map(|e| e.id.clone()).collect();
    assert_eq!(io, vec![String::from("std.io.net_get"), String::from("std.io.net_post")]);
    assert!(reg.namespace("std.ml").is_empty());
}

#[test]
fn registry_check_matches_warns_and_refuses() {
    let reg = registry();
    let ok = reg.check("std.io.net_get", "L1", false);
    assert_eq!(ok.matched_id.as_deref(), Some("std.io.net_get"));
    assert!(ok.warning.is_none());
    assert!(!ok.is_error);

    let warn = reg.check("std.io.net_get", "l0", false);
    assert_eq!(
        warn.warning.as_deref(),
        Some("ASL safety mismatch: intent 'std.io.net_get' recommends 'L1', declared 'L0'")
    );

    let unknown_std = reg.check("std.io.teleport", "l0", false);
    assert!(unknown_std.is_error);
    assert!(unknown_std.matched_id.is_none());
    assert_eq!(
        unknown_std.error_message.as_deref(),
        Some("Unknown std.* intent 'std.io.teleport'. Check the ASL registry or use a custom namespace.")
    );

    let custom = reg.check("acme.fetch", "l0", false);
    assert!(!custom.is_error);
    assert!(custom.error_message.is_none());

    let strict = reg.check("acme.fetch", "l0", true);
    assert!(strict.is_error);
    assert_eq!(
        strict.error_message.as_deref(),
        Some("Unregistered intent 'acme.fetch' rejected (--strict-registry mode).")
    );
}

#[test]
fn safety_levels_are_ordered_by_tier() {
    assert!(SafetyLevel::L0Pure < SafetyLevel::L1ReadOnly);
    assert!(SafetyLevel::L3NetEgress < SafetyLevel::L4SystemRoot);
    assert_eq!(SafetyLevel::L2StateMod.max(SafetyLevel::L1ReadOnly), SafetyLevel::L2StateMod);
}
