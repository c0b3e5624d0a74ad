use nyx::json::Json;
use nyx::rule_editor::{parse_rule_overrides, policy_choices, recorder_outcome, rule_text, shortcut_patch, RecorderOutcome, RuleEdits};
use nyx::keys::{hotkey_bindings, HotkeyAction};
use nyx::merge::merge_patch;
use nyx::state::{ProxyGroup, ProxyNode};

fn conv(v: &serde_yaml::Value) -> Json {
    match v {
        serde_yaml::Value::Null => Json::Null,
        serde_yaml::Value::Bool(b) => Json::Bool(*b),
        serde_yaml::Value::Number(n) => match n.as_i64() {
            Some(i) => Json::Int(i as i128),
            None => Json::Float(n.to_string()),
        },
        serde_yaml::Value::String(s) => Json::Str(s.clone()),
        serde_yaml::Value::Sequence(a) => Json::Array(a.iter().map(conv).collect()),
        serde_yaml::Value::Mapping(m) => Json::Object(
            m.iter()
                .map(|(k, v)| (k.as_str().unwrap_or_default().to_string(), conv(v)))
                .collect(),
        ),
        serde_yaml::Value::Tagged(t) => conv(&t.value),
    }
}

fn y(text: &str) -> Json {
    conv(&serde_yaml::from_str(text).unwrap_or(serde_yaml::Value::Null))
}

fn show(j: &Json) -> String {
    match j {
        Json::Null => "null".to_string(),
        Json::Bool(b) => b.to_string(),
        Json::Int(n) => n.to_string(),
        Json::Float(s) => s.clone(),
        Json::Str(s) => s.clone(),
        Json::Array(a) => format!("[{}]", a.iter().map(show).collect::<Vec<_>>().join(",")),
        Json::Object(e) => format!(
            "{{{}}}",
            e.iter().map(|(k, v)| format!("{}:{}", k, show(v))).collect::<Vec<_>>().join(",")
        ),
    }
}

fn strings(v: &[&str]) -> Vec<String> {
    v.iter().map(|s| s.to_string()).collect()
}

#[test]
fn overrides_parse_string_lists_only() {
    let e = parse_rule_overrides(&y("{prepend: [A, 5, B], append: [C], delete: x}"));
    assert_eq!(e.prepend, strings(&["A", "B"]));
    assert_eq!(e.append, strings(&["C"]));
    assert!(e.delete.is_empty());
    let none = parse_rule_overrides(&Json::Null);
    assert!(none.prepend.is_empty() && none.append.is_empty() && none.delete.is_empty());
}

#[test]
fn overrides_saved_then_read_back() {
    let e = RuleEdits {
        prepend: strings(&["DOMAIN,a.com,DIRECT"]),
        append: strings(&["MATCH,Proxy"]),
        delete: strings(&["GEOIP,CN,DIRECT"]),
    };
    let doc = e.to_doc();
    assert_eq!(show(&doc), "{append:[MATCH,Proxy],delete:[GEOIP,CN,DIRECT],prepend:[DOMAIN,a.com,DIRECT]}");
    let back = parse_rule_overrides(&doc);
    assert_eq!(back.prepend, e.prepend);
    assert_eq!(back.append, e.append);
    assert_eq!(back.delete, e.delete);
}

#[test]
fn editing_rules() {
    let mut e = RuleEdits { prepend: strings(&["P1"]), append: strings(&["A1"]), delete: Vec::new() };
    e.add_rule("A2".to_string(), true);
    e.add_rule("P0".to_string(), false);
    assert_eq!(e.prepend, strings(&["P0", "P1"]));
    assert_eq!(e.append, strings(&["A1", "A2"]));
    e.remove_rule(true, 0);
    e.remove_rule(false, 7);
    assert_eq!(e.append, strings(&["A2"]));
    assert_eq!(e.prepend, strings(&["P0", "P1"]));
    e.toggle_delete("R");
    e.toggle_delete("S");
    assert_eq!(e.delete, strings(&["R", "S"]));
    e.toggle_delete("R");
    assert_eq!(e.delete, strings(&["S"]));
}

#[test]
fn rule_form_text() {
    assert_eq!(rule_text(Some("DOMAIN-SUFFIX"), "  google.com ", "Proxy").as_deref(), Some("DOMAIN-SUFFIX,google.com,Proxy"));
    assert_eq!(rule_text(Some("MATCH"), "", "DIRECT").as_deref(), Some("MATCH,DIRECT"));
    assert_eq!(rule_text(None, "a.com", "REJECT").as_deref(), Some("DOMAIN,a.com,REJECT"));
    assert_eq!(rule_text(Some("DOMAIN"), "   ", "DIRECT"), None);
    assert_eq!(rule_text(Some("MATCH"), "x", ""), None);
}

fn node(name: &str) -> ProxyNode {
    ProxyNode { name: name.to_string(), kind: "Shadowsocks".to_string(), delay: None }
}

#[test]
fn policy_choices_groups_members_builtins() {
    let groups = vec![
        ProxyGroup { name: "Proxy".to_string(), kind: "Selector".to_string(), now: "a".to_string(), all: vec![node("a"), node("DIRECT"), node("b")] },
        ProxyGroup { name: "Auto".to_string(), kind: "URLTest".to_string(), now: "a".to_string(), all: vec![node("a"), node("Proxy")] },
    ];
    let (choices, chosen) = policy_choices(&groups);
    assert_eq!(choices, strings(&["Proxy", "Auto", "a", "DIRECT", "b", "REJECT", "REJECT-DROP", "PASS", "COMPATIBLE"]));
    assert_eq!(chosen, Some(3));
    let (plain, first) = policy_choices(&Vec::new());
    assert_eq!(plain, strings(&["DIRECT", "REJECT", "REJECT-DROP", "PASS", "COMPATIBLE"]));
    assert_eq!(first, Some(0));
}

#[test]
fn shortcut_recording() {
    assert!(matches!(recorder_outcome("escape", true, false, false, false), RecorderOutcome::Cancel));
    assert!(matches!(recorder_outcome("delete", false, false, false, false), RecorderOutcome::Clear));
    assert!(matches!(recorder_outcome("backspace", false, false, false, false), RecorderOutcome::Clear));
    match recorder_outcome("t", true, false, true, false) {
        RecorderOutcome::Bind(a) => assert_eq!(a, "Ctrl+Shift+KeyT"),
        _ => panic!("expected a binding"),
    }
    assert_eq!(show(&shortcut_patch("showWindowShortcut", "Ctrl+KeyW")), "{showWindowShortcut:Ctrl+KeyW}");
    assert_eq!(show(&shortcut_patch("showWindowShortcut", "")), "{showWindowShortcut:null}");
}

#[test]
fn saved_shortcut_is_read_back() {
    let cfg = y("{triggerTunShortcut: Alt+KeyT, core: mihomo}");
    let saved = merge_patch(cfg, &shortcut_patch("showWindowShortcut", "Ctrl+KeyW"));
    let b = hotkey_bindings(&saved);
    assert_eq!(b.len(), 2);
    assert_eq!(b[0].0, "Ctrl+KeyW");
    assert!(matches!(b[0].1, HotkeyAction::ToggleWindow));
    assert_eq!(b[1].0, "Alt+KeyT");
    let cleared = merge_patch(saved, &shortcut_patch("triggerTunShortcut", ""));
    let c = hotkey_bindings(&cleared);
    assert_eq!(c.len(), 1);
    assert_eq!(c[0].0, "Ctrl+KeyW");
}
