use nyx::connection::{connection_mode, restore_tun, set_connection, ConnectionMode};
use nyx::json::Json;
use nyx::merge::{merge_patch, overlay, patch_overrides, strip_nulls};
use nyx::profiles::{
    change_current_profile, decode_header_value, get_profile_item, nyx_user_agent,
    parse_subscription_userinfo, register_profile, remove_profile_item, subscription_user_agent,
    update_profile_item,
};
use nyx::runtime_config::{
    apply_rule_overrides, apply_section_policy, configs_url, controller_url_for, core_binary_name,
    ensure_external_controller, plan_core_install, rebuild_runtime_config, reload_request,
    version_matches_channel, InstalledCore,
};

fn conv(v: &serde_yaml::Value) -> Json {
    match v {
        serde_yaml::Value::Null => Json::Null,
        serde_yaml::Value::Bool(b) => Json::Bool(*b),
        serde_yaml::Value::Number(n) => {
            if let Some(i) = n.as_i64() {
                Json::Int(i as i128)
            } else if let Some(u) = n.as_u64() {
                Json::Int(u as i128)
            } else {
                Json::Float(n.to_string())
            }
        }
        serde_yaml::Value::String(s) => Json::Str(s.clone()),
        serde_yaml::Value::Sequence(a) => Json::Array(a.iter().map(conv).collect()),
        serde_yaml::Value::Mapping(m) => Json::Object(
            m.iter()
                .map(|(k, v)| (k.as_str().unwrap_or_default().to_string(), conv(v)))
                .collect(),
        ),
        serde_yaml::Value::Tagged(t) => conv(&t.value),
    }
}

fn y(text: &str) -> Json {
    conv(&serde_yaml::from_str(text).unwrap())
}

fn show(j: &Json) -> String {
    match j {
        Json::Null => "null".to_string(),
        Json::Bool(b) => b.to_string(),
        Json::Int(n) => n.to_string(),
        Json::Float(s) => s.clone(),
        Json::Str(s) => s.clone(),
        Json::Array(a) => format!("[{}]", a.iter().map(show).collect::<Vec<_>>().join(",")),
        Json::Object(e) => format!(
            "{{{}}}",
            e.iter()
                .map(|(k, v)| format!("{}:{}", k, show(v)))
                .collect::<Vec<_>>()
                .join(",")
        ),
    }
}

#[test]
fn merge_patch_deletes_merges_and_appends() {
    let base = y("{a: 1, b: {c: 2, d: 3}}");
    let patch = y("{b: {c: null, e: 4}, f: 5}");
    assert_eq!(show(&merge_patch(base, &patch)), "{a:1,b:{d:3,e:4},f:5}");
}

#[test]
fn merge_patch_on_non_object_keeps_base() {
    let base = y("[1, 2]");
    assert_eq!(show(&merge_patch(base, &y("{a: 1}"))), "[1,2]");
}

#[test]
fn strip_nulls_reaches_nested_objects_only() {
    let j = y("{a: null, b: {c: null, d: 1}, e: [null]}");
    assert_eq!(show(&strip_nulls(&j)), "{b:{d:1},e:[null]}");
}

#[test]
fn patch_overrides_merges_then_strips() {
    let base = y("{tun: {enable: false, stack: gvisor}, dns: {enable: true}}");
    let patch = y("{tun: {enable: true, stack: null}, mode: null}");
    assert_eq!(
        show(&patch_overrides(base, &patch)),
        "{tun:{enable:true},dns:{enable:true}}"
    );
}

#[test]
fn overlay_merges_mappings_and_skips_nulls() {
    let base = y("{dns: {enable: false, ipv6: true}, mode: rule}");
    let patch = y("{dns: {enable: true}, mode: null, tun: {enable: true}}");
    assert_eq!(
        show(&overlay(base, &patch)),
        "{dns:{enable:true,ipv6:true},mode:rule,tun:{enable:true}}"
    );
}

#[test]
fn section_policy_drops_override_when_profile_has_section() {
    let profile = y("{dns: {enable: true}}");
    let ov = y("{dns: {x: 1}, tun: {enable: true, stack: gvisor}, mode: rule}");
    let r = apply_section_policy(&profile, ov, "dns", false);
    assert_eq!(show(&r), "{mode:rule,tun:{enable:true,stack:gvisor}}");
}

#[test]
fn section_policy_keeps_tun_enable() {
    let profile = y("{tun: {enable: false, device: x}}");
    let ov = y("{tun: {enable: true, stack: gvisor}, mode: rule}");
    let r = apply_section_policy(&profile, ov, "tun", false);
    assert_eq!(show(&r), "{mode:rule,tun:{enable:true}}");
}

#[test]
fn section_policy_forced_or_empty_profile_keeps_overrides() {
    let ov = "{dns: {x: 1}}";
    let forced = apply_section_policy(&y("{dns: {a: 1}}"), y(ov), "dns", true);
    assert_eq!(show(&forced), "{dns:{x:1}}");
    let empty = apply_section_policy(&y("{dns: {}}"), y(ov), "dns", false);
    assert_eq!(show(&empty), "{dns:{x:1}}");
}

#[test]
fn rule_overrides_prepend_delete_append() {
    let cfg = y("{rules: [A, B, C], mode: rule}");
    let ov = y("{prepend: [P], delete: [B], append: [Z]}");
    assert_eq!(show(&apply_rule_overrides(cfg, &ov)), "{rules:[P,A,C,Z],mode:rule}");
}

#[test]
fn rule_overrides_without_lists_change_nothing() {
    let cfg = y("{rules: [A]}");
    assert_eq!(show(&apply_rule_overrides(cfg, &y("{other: 1}"))), "{rules:[A]}");
}

#[test]
fn rule_overrides_add_rules_when_absent() {
    let cfg = y("{mode: rule}");
    assert_eq!(show(&apply_rule_overrides(cfg, &y("{append: [Z]}"))), "{mode:rule,rules:[Z]}");
}

#[test]
fn external_controller_inserted_with_port() {
    let (cfg, url) = ensure_external_controller(y("{mode: rule}"), 9097);
    assert_eq!(show(&cfg), "{mode:rule,external-controller:127.0.0.1:9097}");
    assert_eq!(url, "http://127.0.0.1:9097");
}

#[test]
fn external_controller_kept_and_url_derived() {
    let (cfg, url) = ensure_external_controller(y("{external-controller: ':9090'}"), 1);
    assert_eq!(show(&cfg), "{external-controller::9090}");
    assert_eq!(url, "http://127.0.0.1:9090");
    assert_eq!(controller_url_for("0.0.0.0:9090"), "http://0.0.0.0:9090");
    assert_eq!(controller_url_for("https://h:1"), "https://h:1");
}

#[test]
fn external_controller_is_idempotent() {
    let (once, url1) = ensure_external_controller(y("{a: 1}"), 9100);
    let (twice, url2) = ensure_external_controller(y(&show_yaml(&once)), 9100);
    assert_eq!(show(&once), show(&twice));
    assert_eq!(url1, url2);
}

fn show_yaml(j: &Json) -> String {
    match j {
        Json::Object(e) => format!(
            "{{{}}}",
            e.iter()
                .map(|(k, v)| format!("'{}': '{}'", k, show(v)))
                .collect::<Vec<_>>()
                .join(", ")
        ),
        other => show(other),
    }
}

#[test]
fn rebuild_runtime_config_pipeline() {
    let profile = y("{mixed-port: 7890, rules: [A, B, C], dns: {enable: false}}");
    let overrides = y("{tun: {enable: true}, dns: {enable: true}}");
    let rules = y("{prepend: [P], delete: [B], append: [Z]}");
    let (cfg, url) = rebuild_runtime_config(Some(profile), overrides, false, false, true, Some(rules), 9097);
    // dns is the profile's own (not forced); the overrides' tun is layered on
    assert_eq!(
        show(&cfg),
        "{mixed-port:7890,rules:[P,A,C,Z],dns:{enable:false},tun:{enable:true},external-controller:127.0.0.1:9097}"
    );
    assert_eq!(url, "http://127.0.0.1:9097");
}

#[test]
fn rebuild_without_profile_starts_from_empty_mapping() {
    let (cfg, url) = rebuild_runtime_config(None, y("{mode: global}"), true, true, true, None, 9200);
    assert_eq!(show(&cfg), "{mode:global,external-controller:127.0.0.1:9200}");
    assert_eq!(url, "http://127.0.0.1:9200");
}

#[test]
fn channel_of_versions() {
    assert!(version_matches_channel("v1.19.0-alpha-abc", true));
    assert!(!version_matches_channel("v1.19.0-alpha-abc", false));
    assert!(version_matches_channel("v1.19.0", false));
    assert!(version_matches_channel("Prerelease-x", true));
    assert!(version_matches_channel("Nightly", true));
}

#[test]
fn core_install_plan_removes_broken_and_picks_usable() {
    let installed = vec![
        InstalledCore { version: "v1.18.0".to_string(), has_binary: false },
        InstalledCore { version: "alpha-123".to_string(), has_binary: true },
        InstalledCore { version: "v1.19.0".to_string(), has_binary: true },
    ];
    let plan = plan_core_install("mihomo", &installed);
    assert!(!plan.skip);
    assert!(!plan.want_alpha);
    assert_eq!(plan.remove, vec![0]);
    assert_eq!(plan.use_installed, Some(2));
    let alpha = plan_core_install("mihomo-alpha", &installed);
    assert!(alpha.want_alpha);
    assert_eq!(alpha.remove, Vec::<usize>::new());
    assert_eq!(alpha.use_installed, Some(1));
    let system = plan_core_install("system", &installed);
    assert!(system.skip);
    assert_eq!(system.use_installed, None);
    let none = plan_core_install("mihomo", &vec![]);
    assert_eq!(none.use_installed, None);
    assert_eq!(core_binary_name(true), "mihomo.exe");
    assert_eq!(core_binary_name(false), "mihomo");
}

#[test]
fn reload_request_uses_forward_slashes() {
    let (url, body) = reload_request("http://127.0.0.1:9097", "C:\\data\\config.yaml");
    assert_eq!(url, "http://127.0.0.1:9097/configs?force=false");
    assert_eq!(show(&body), "{path:C:/data/config.yaml}");
    assert_eq!(configs_url("http://c"), "http://c/configs");
}

#[test]
fn header_values_decode_base64() {
    assert_eq!(decode_header_value("base64:SGVsbG8="), "Hello");
    assert_eq!(decode_header_value("base64: SGVsbG8= "), "Hello");
    assert_eq!(decode_header_value("plain"), "plain");
    assert_eq!(decode_header_value("base64:!!!"), "base64:!!!");
}

#[test]
fn userinfo_parsed_into_usage() {
    let u = parse_subscription_userinfo("upload=1; download=2; total=10; expire=99; junk");
    assert_eq!(show(&u), "{upload:1,download:2,total:10,expire:99}");
    let bad = parse_subscription_userinfo("upload=x");
    assert_eq!(show(&bad), "{upload:0,download:0,total:0,expire:0}");
}

#[test]
fn user_agents() {
    assert_eq!(nyx_user_agent("1.2.3"), "clash-meta/mihomo/Nyx-v1.2.3");
    assert_eq!(subscription_user_agent(&y("{ua: custom}"), "1"), "custom");
    assert_eq!(subscription_user_agent(&y("{url: x}"), "1"), "clash-meta/mihomo/Nyx-v1");
}

#[test]
fn register_first_profile_becomes_current() {
    let cfg = y("{items: []}");
    let (c, reload) = register_profile(cfg, y("{id: p1, name: One}"), "p1").ok().unwrap();
    assert!(reload);
    assert_eq!(show(&c), "{items:[{id:p1,name:One}],current:p1}");
    let (c2, reload2) = register_profile(c, y("{id: p2}"), "p2").ok().unwrap();
    assert!(!reload2);
    assert_eq!(show(&c2), "{items:[{id:p1,name:One},{id:p2}],current:p1}");
    assert!(register_profile(y("{}"), y("{id: x}"), "x").is_err());
}

#[test]
fn register_replaces_a_current_that_is_not_text() {
    let (c, reload) = register_profile(y("{current: 7, items: []}"), y("{id: p1}"), "p1").ok().unwrap();
    assert!(reload);
    assert_eq!(show(&c), "{current:p1,items:[{id:p1}]}");
}

#[test]
fn profile_lookup_update_remove_switch() {
    let cfg = y("{current: a, items: [{id: a, name: A}, {id: b, name: B}]}");
    assert_eq!(show(&get_profile_item(&cfg, "b").ok().unwrap()), "{id:b,name:B}");
    assert_eq!(get_profile_item(&cfg, "z").err().unwrap(), "profile 'z' not found");
    let updated = update_profile_item(y(&"{current: a, items: [{id: a, name: A}, {id: b, name: B}]}"), y("{id: b, name: BB}")).ok().unwrap();
    assert_eq!(show(&get_profile_item(&updated, "b").ok().unwrap()), "{id:b,name:BB}");
    let removed = remove_profile_item(updated, "a").ok().unwrap();
    assert!(get_profile_item(&removed, "a").is_err());
    let switched = change_current_profile(removed, "b").ok().unwrap();
    assert_eq!(show(&switched), "{current:b,items:[{id:b,name:BB}]}");
    assert!(change_current_profile(y("{items: []}"), "q").is_err());
}

#[test]
fn connection_switch_saved_in_app_config() {
    let plan = set_connection(ConnectionMode::SysProxy, true, false);
    assert!(plan.sysproxy && !plan.tun && plan.start_core);
    let cfg = merge_patch(y("{sysProxy: {mode: manual}}"), &plan.app_patch);
    assert_eq!(connection_mode(&cfg), ConnectionMode::SysProxy);
    assert!(!restore_tun(&cfg));
    assert!(nyx::connection::path_bool(&cfg, "sysProxy.enable", false));
    let tun = set_connection(ConnectionMode::Tun, true, true);
    let cfg2 = merge_patch(cfg, &tun.app_patch);
    assert!(restore_tun(&cfg2));
    assert!(!nyx::connection::path_bool(&cfg2, "sysProxy.enable", true));
    let off = set_connection(ConnectionMode::Tun, false, true);
    let cfg3 = merge_patch(cfg2, &off.app_patch);
    assert!(!restore_tun(&cfg3));
}

#[test]
fn merge_patch_twice_is_once() {
    let base = y("{a: 1, b: {c: 2, d: 3}, e: 5}");
    let patch = y("{a: null, b: {c: null, x: {y: 1}}, f: 7, e: 6}");
    let once = merge_patch(base, &patch);
    let twice = merge_patch(once.duplicate(), &patch);
    assert_eq!(show(&once), "{b:{d:3,x:{y:1}},e:6,f:7}");
    assert_eq!(show(&twice), show(&once));
}

#[test]
fn strip_nulls_twice_is_once() {
    let j = y("{a: null, b: {c: null, d: {e: null, f: 1}}, g: [null]}");
    let once = strip_nulls(&j);
    assert_eq!(show(&once), "{b:{d:{f:1}},g:[null]}");
    assert_eq!(show(&strip_nulls(&once)), show(&once));
}

#[test]
fn change_current_on_a_document_without_list_is_not_found() {
    for doc in ["[1, 2]", "plain text", "null", "{items: 5}"] {
        let r = change_current_profile(y(doc), "p1");
        assert_eq!(r.err().as_deref(), Some("profile 'p1' not found"));
    }
}
