use nyx::ui::{conn_filter, domain_suffix_frag, ip_asn_frag, process_matches, process_name_frag};
use nyx::ui::{can_submit_profile, focused_group, scheme_desktop_entry};
use nyx::ui::is_telegram_link;
use nyx::json::Json;
use nyx::state::Rule;
use nyx::ui::{onboarding_advance, OnboardingMove, OnboardingPage};
use nyx::ui::{
    avatar_color, delay_color, expiry_days, fmt_elapsed, ip_cidr_frag, kind_label, kv, level_matches,
    level_style, parse_providers, policy_colors, policy_of, port_frag, rule_example, rule_to_string,
    strip_port, sub_stats, support_link, sysproxy_partial, type_color, LogFilter, Policy, RULE_TYPES,
};

fn conv(v: &serde_yaml::Value) -> Json {
    match v {
        serde_yaml::Value::Null => Json::Null,
        serde_yaml::Value::Bool(b) => Json::Bool(*b),
        serde_yaml::Value::Number(n) => {
            if let Some(i) = n.as_i64() {
                Json::Int(i as i128)
            } else if let Some(u) = n.as_u64() {
                Json::Int(u as i128)
            } else {
                Json::Float(n.to_string())
            }
        }
        serde_yaml::Value::String(s) => Json::Str(s.clone()),
        serde_yaml::Value::Sequence(a) => Json::Array(a.iter().map(conv).collect()),
        serde_yaml::Value::Mapping(m) => Json::Object(
            m.iter()
                .map(|(k, v)| (k.as_str().unwrap_or_default().to_string(), conv(v)))
                .collect(),
        ),
        serde_yaml::Value::Tagged(t) => conv(&t.value),
    }
}

fn y(text: &str) -> Json {
    conv(&serde_yaml::from_str(text).unwrap())
}

fn rule(kind: &str, payload: &str, proxy: &str) -> Rule {
    Rule { kind: kind.to_string(), payload: payload.to_string(), proxy: proxy.to_string() }
}

#[test]
fn rule_examples_per_platform() {
    assert_eq!(rule_example("GEOIP", false), "CN");
    assert_eq!(rule_example("PROCESS-NAME", true), "chrome.exe");
    assert_eq!(rule_example("PROCESS-NAME", false), "curl");
    assert_eq!(rule_example("IP-CIDR6", false), "2620:0:2d0:200::7/32");
    assert_eq!(rule_example("MATCH", false), "");
    assert_eq!(rule_example("bogus", true), "");
    assert_eq!(RULE_TYPES.split(',').count(), 33);
}

#[test]
fn rules_as_text_and_policy() {
    assert_eq!(rule_to_string(&rule("MATCH", "", "Proxy")), "MATCH,Proxy");
    assert_eq!(rule_to_string(&rule("GEOIP", "", "DIRECT")), "GEOIP,DIRECT");
    assert_eq!(rule_to_string(&rule("DOMAIN", "a.com", "Proxy")), "DOMAIN,a.com,Proxy");
    assert_eq!(policy_of(&rule("MATCH", "", "REJECT")), Policy::Match);
    assert_eq!(policy_of(&rule("DOMAIN", "x", "REJECT-DROP")), Policy::Reject);
    assert_eq!(policy_of(&rule("DOMAIN", "x", "DIRECT")), Policy::Direct);
    assert_eq!(policy_of(&rule("DOMAIN", "x", "Auto")), Policy::Proxy);
    assert_eq!(type_color(Policy::Direct), 0x5FB6A0);
    assert_eq!(policy_colors(Policy::Reject), (0xE0564B, 0xEE7D72));
    assert_eq!(policy_colors(Policy::Match), (0x35C97C, 0x49DB8D));
}

#[test]
fn elapsed_time_text() {
    assert_eq!(fmt_elapsed(3725), "01:02:05");
    assert_eq!(fmt_elapsed(0), "00:00:00");
    assert_eq!(fmt_elapsed(360000), "100:00:00");
}

#[test]
fn avatar_colors_follow_name_hash() {
    assert_eq!(avatar_color(""), 0xD97757);
    assert_eq!(avatar_color("a"), 0x4B5563);
    // "ab": 97 * 31 + 98 = 3105, 3105 % 7 = 4
    assert_eq!(avatar_color("ab"), 0x1F7A4D);
}

#[test]
fn ports_and_fragments() {
    assert_eq!(strip_port("example.com:443"), "example.com");
    assert_eq!(strip_port("[::1]:80"), "[::1]:80");
    assert_eq!(strip_port("host:"), "host");
    assert_eq!(strip_port(":80"), ":80");
    assert_eq!(strip_port("a:b"), "a:b");
    assert_eq!(strip_port("plain"), "plain");
    assert_eq!(ip_cidr_frag("IP-CIDR", " 1.2.3.4 ").as_deref(), Some("IP-CIDR,1.2.3.4/32"));
    assert_eq!(ip_cidr_frag("IP-CIDR6", "::1").as_deref(), Some("IP-CIDR6,::1/128"));
    assert_eq!(ip_cidr_frag("IP-CIDR", "  "), None);
    assert_eq!(port_frag("DST-PORT", "0"), None);
    assert_eq!(port_frag("DST-PORT", " 443 ").as_deref(), Some("DST-PORT,443"));
    let row = kv("Host".to_string(), "a".to_string(), None);
    assert_eq!(row.label, "Host");
}

#[test]
fn log_levels() {
    assert_eq!(level_style("warn").0, "WARN");
    assert_eq!(level_style("error").1, 0xE0564B);
    assert_eq!(level_style("dbg").0, "DBG");
    assert_eq!(level_style("info"), ("INFO", 0x35C97C, 0xCDD8E3));
    assert!(level_matches(LogFilter::All, "x"));
    assert!(level_matches(LogFilter::Warning, "warn"));
    assert!(!level_matches(LogFilter::Error, "warning"));
    assert!(level_matches(LogFilter::Info, "info"));
}

#[test]
fn group_kind_labels_and_delays() {
    assert_eq!(kind_label("Selector"), "SELECT");
    assert_eq!(kind_label("LoadBalance"), "BALANCE");
    assert_eq!(kind_label("direct"), "DIRECT");
    assert_eq!(delay_color(None), 0x8DA0B0);
    assert_eq!(delay_color(Some(199)), 0x49DB8D);
    assert_eq!(delay_color(Some(200)), 0xE0A030);
    assert_eq!(delay_color(Some(500)), 0xE0564B);
}

#[test]
fn subscription_stats() {
    let item = y("{extra: {upload: 10, download: 20, total: 100, expire: 0}, announce: \" a \\n\\n b \"}");
    let s = sub_stats(Some(&item), 0);
    assert_eq!((s.used, s.total, s.remaining), (30, 100, 70));
    assert!(s.has_traffic);
    assert_eq!(s.days, None);
    assert_eq!(s.expire_label, None);
    assert_eq!(s.announce, vec!["a", "b"]);
    let exp = y("{extra: {total: 5, upload: 9, expire: 259205}}");
    let t = sub_stats(Some(&exp), 0);
    assert_eq!(t.remaining, 0);
    assert_eq!(t.days, Some(3));
    assert_eq!(t.expire_label.as_deref(), Some("1970-01-04"));
    let none = sub_stats(None, 5);
    assert!(!none.has_traffic);
    assert!(none.announce.is_empty());
    assert_eq!(expiry_days(0, 10), None);
    assert_eq!(expiry_days(100, 1_000), Some(0));
    assert_eq!(expiry_days(86_400 * 2 + 1, 0), Some(2));
}

#[test]
fn support_links() {
    let (url, tg) = support_link(Some(&y("{supportUrl: ' https://T.me/x '}"))).unwrap();
    assert_eq!(url, "https://T.me/x");
    assert!(tg);
    let (_, tg2) = support_link(Some(&y("{supportUrl: 'TG:resolve'}"))).unwrap();
    assert!(tg2);
    let (_, web) = support_link(Some(&y("{supportUrl: 'https://help.example'}"))).unwrap();
    assert!(!web);
    assert!(support_link(Some(&y("{supportUrl: '  '}"))).is_none());
    assert!(support_link(None).is_none());
}

#[test]
fn providers_listed_and_sorted() {
    let v = y("{providers: {b: {vehicleType: HTTP, behavior: domain, ruleCount: 5}, a: {vehicleType: Compatible}, c: {vehicleType: File, behavior: ipcidr}, d: {}}}");
    let rows = parse_providers(&v, true);
    assert_eq!(rows.len(), 2);
    assert_eq!(rows[0].name, "b");
    assert_eq!(rows[0].subtitle, "HTTP · domain · 5");
    assert_eq!(rows[1].name, "c");
    assert_eq!(rows[1].subtitle, "File · ipcidr · 0");
    let p = y("{providers: {z: {vehicleType: HTTP, proxies: [1, 2]}, y: {vehicleType: File}}}");
    let prow = parse_providers(&p, false);
    assert_eq!(prow[0].name, "y");
    assert_eq!(prow[0].subtitle, "File · 0");
    assert_eq!(prow[1].subtitle, "HTTP · 2");
    assert!(parse_providers(&y("{}"), true).is_empty());
}

#[test]
fn partial_system_proxy() {
    assert!(sysproxy_partial(true, Some("sway")));
    assert!(!sysproxy_partial(true, Some("GNOME")));
    assert!(!sysproxy_partial(false, Some("sway")));
}

#[test]
fn onboarding_steps_through_three_screens() {
    assert!(matches!(onboarding_advance(None), OnboardingMove::Show(1, OnboardingPage::Profiles)));
    assert!(matches!(onboarding_advance(Some(1)), OnboardingMove::Show(2, OnboardingPage::CoreSettings)));
    assert!(matches!(onboarding_advance(Some(2)), OnboardingMove::Show(3, OnboardingPage::Home)));
    assert!(matches!(onboarding_advance(Some(3)), OnboardingMove::Finish));
    assert!(matches!(onboarding_advance(Some(9)), OnboardingMove::Finish));
}

#[test]
fn every_offered_rule_type_but_match_has_an_example() {
    for windows in [false, true] {
        for kind in RULE_TYPES.split(',') {
            assert_eq!(rule_example(kind, windows).is_empty(), kind == "MATCH", "{kind}");
        }
        assert_eq!(rule_example("NOT-A-TYPE", windows), "");
    }
}

#[test]
fn connection_page_helpers() {
    assert_eq!(conn_filter("  ChRome "), "chrome");
    assert!(process_matches("Google Chrome", "chrome"));
    assert!(process_matches("anything", ""));
    assert!(!process_matches("firefox", "chrome"));
    assert_eq!(domain_suffix_frag("www.example.com:443").as_deref(), Some("DOMAIN-SUFFIX,www.example.com"));
    assert_eq!(domain_suffix_frag("1.2.3.4:80"), None);
    assert_eq!(ip_asn_frag("  13335 Cloudflare, Inc.").as_deref(), Some("IP-ASN,13335"));
    assert_eq!(ip_asn_frag("   "), None);
    assert_eq!(process_name_frag("curl").as_deref(), Some("PROCESS-NAME,curl"));
    assert_eq!(process_name_frag(""), None);
}

#[test]
fn page_state_helpers() {
    assert!(can_submit_profile(false, false, false, " https://a "));
    assert!(!can_submit_profile(false, true, true, "  "));
    assert!(can_submit_profile(true, true, false, ""));
    assert!(!can_submit_profile(true, false, false, "https://a"));
    let groups = vec!["Proxy".to_string(), "Auto".to_string()];
    assert_eq!(focused_group(Some("Auto"), &groups).as_deref(), Some("Auto"));
    assert_eq!(focused_group(Some("Gone"), &groups).as_deref(), Some("Proxy"));
    assert_eq!(focused_group(None, &Vec::new()), None);
    assert_eq!(
        scheme_desktop_entry("/usr/bin/nyx"),
        "[Desktop Entry]\nName=Nyx\nExec=/usr/bin/nyx %u\nType=Application\nTerminal=false\nNoDisplay=true\nMimeType=x-scheme-handler/nyx;\n"
    );
}

#[test]
fn telegram_links() {
    assert!(is_telegram_link("tg://resolve?domain=x"));
    assert!(is_telegram_link("https://t.me/x"));
    assert!(!is_telegram_link("https://help.example"));
}
