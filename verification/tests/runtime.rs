use nyx::state::network_label;
use nyx::json::Json;
use nyx::state::{set_node_delay, ConnItem, LogBuffer, ProxyGroup, ProxyNode};
use nyx::traffic::{group_items, ConnTracker};
use nyx::tray::{build_menu, handle_menu, proxy_item_id, MenuEntry, TrayAction};

fn conv(v: &serde_yaml::Value) -> Json {
    match v {
        serde_yaml::Value::Null => Json::Null,
        serde_yaml::Value::Bool(b) => Json::Bool(*b),
        serde_yaml::Value::Number(n) => {
            if let Some(i) = n.as_i64() {
                Json::Int(i as i128)
            } else if let Some(u) = n.as_u64() {
                Json::Int(u as i128)
            } else {
                Json::Float(n.to_string())
            }
        }
        serde_yaml::Value::String(s) => Json::Str(s.clone()),
        serde_yaml::Value::Sequence(a) => Json::Array(a.iter().map(conv).collect()),
        serde_yaml::Value::Mapping(m) => Json::Object(
            m.iter()
                .map(|(k, v)| (k.as_str().unwrap_or_default().to_string(), conv(v)))
                .collect(),
        ),
        serde_yaml::Value::Tagged(t) => conv(&t.value),
    }
}

fn y(text: &str) -> Json {
    conv(&serde_yaml::from_str(text).unwrap())
}

fn item(id: &str, up: u64, down: u64, path: &str) -> ConnItem {
    ConnItem {
        id: id.to_string(),
        host: String::new(),
        network: String::new(),
        chains: String::new(),
        rule: String::new(),
        up,
        down,
        conn_type: String::new(),
        dest_ip: String::new(),
        dest_port: String::new(),
        dest_geoip: String::new(),
        dest_asn: String::new(),
        src_ip: String::new(),
        src_port: String::new(),
        process: String::new(),
        process_path: path.to_string(),
        dns_mode: String::new(),
    }
}

#[test]
fn groups_sorted_by_traffic() {
    let items = vec![
        ("chrome".to_string(), item("1", 10, 5, "")),
        ("curl".to_string(), item("2", 100, 0, "/usr/bin/curl")),
        ("chrome".to_string(), item("3", 1, 1, "/opt/chrome")),
        ("chrome".to_string(), item("4", 20, 0, "/other")),
    ];
    let groups = group_items(items);
    assert_eq!(groups.len(), 2);
    assert_eq!(groups[0].name, "curl");
    assert_eq!(groups[0].count, 1);
    assert_eq!(groups[1].name, "chrome");
    assert_eq!(groups[1].count, 3);
    assert_eq!(groups[1].up, 31);
    assert_eq!(groups[1].down, 6);
    // the first non-empty path wins
    assert_eq!(groups[1].process_path, "/opt/chrome");
    let ids: Vec<&str> = groups[1].conns.iter().map(|c| c.id.as_str()).collect();
    assert_eq!(ids, vec!["4", "1", "3"]);
}

#[test]
fn equal_traffic_keeps_first_seen_order() {
    let items = vec![
        ("b".to_string(), item("1", 5, 0, "")),
        ("a".to_string(), item("2", 0, 5, "")),
    ];
    let groups = group_items(items);
    assert_eq!(groups[0].name, "b");
    assert_eq!(groups[1].name, "a");
}

#[test]
fn tracker_speeds_history_and_closed() {
    let mut t = ConnTracker::new();
    let first = y("{downloadTotal: 100, uploadTotal: 50, connections: [{id: a, upload: 5, download: 6, metadata: {process: chrome.exe, host: x.com}}]}");
    t.apply_connections(&first);
    assert_eq!(t.conn_count, 1);
    assert_eq!((t.up_speed, t.down_speed), (0, 0));
    assert_eq!((t.total_up, t.total_down), (50, 100));
    assert_eq!(t.connections.len(), 1);
    assert_eq!(t.connections[0].name, "chrome");
    assert!(t.closed_connections.is_empty());
    let second = y("{downloadTotal: 90, uploadTotal: 80, connections: []}");
    t.apply_connections(&second);
    assert_eq!(t.conn_count, 0);
    assert_eq!((t.up_speed, t.down_speed), (30, 0));
    assert_eq!(t.history, vec![(0, 0), (30, 0)]);
    assert_eq!(t.closed_items.len(), 1);
    assert_eq!(t.closed_connections.len(), 1);
    assert_eq!(t.closed_connections[0].name, "chrome");
    assert_eq!(t.closed_connections[0].count, 1);
    assert!(t.connections.is_empty());
}

#[test]
fn tracker_caps_history() {
    let mut t = ConnTracker::new();
    for k in 0..70u64 {
        let data = y(&format!("{{uploadTotal: {}, downloadTotal: 0}}", k * 10));
        t.apply_connections(&data);
    }
    assert_eq!(t.history.len(), 60);
    assert_eq!(t.history[59], (10, 0));
}

#[test]
fn tracker_caps_closed_connections() {
    let mut t = ConnTracker::new();
    for k in 0..305u64 {
        let data = y(&format!("{{connections: [{{id: c{}, metadata: {{host: h}}}}]}}", k));
        t.apply_connections(&data);
    }
    // every snapshot closed the previous connection
    assert_eq!(t.closed_items.len(), 300);
    assert_eq!(t.closed_items[299].1.id, "c303");
}

#[test]
fn log_buffer_levels_and_counter() {
    let mut logs = LogBuffer::new();
    logs.push_log(&y("{type: warning, payload: hi}"), "12:00:00.000".to_string());
    logs.push_log(&y("{type: info, payload: ''}"), "12:00:01.000".to_string());
    logs.push_log(&y("{payload: x}"), "12:00:02.000".to_string());
    assert_eq!(logs.logs.len(), 2);
    assert_eq!(logs.log_seq, 2);
    assert_eq!(logs.logs[0].level, "warning");
    assert_eq!(logs.logs[1].level, "info");
    assert_eq!(logs.logs[1].time, "12:00:02.000");
    logs.clear_logs();
    assert!(logs.logs.is_empty());
    assert_eq!(logs.log_seq, 2);
}

#[test]
fn log_buffer_keeps_last_thousand() {
    let mut logs = LogBuffer::new();
    for k in 0..1005 {
        logs.push_log(&y(&format!("{{payload: m{}}}", k)), String::new());
    }
    assert_eq!(logs.logs.len(), 1000);
    assert_eq!(logs.logs[0].message, "m5");
    assert_eq!(logs.log_seq, 1005);
}

fn group(name: &str, kind: &str, now: &str, nodes: &[&str]) -> ProxyGroup {
    ProxyGroup {
        name: name.to_string(),
        kind: kind.to_string(),
        now: now.to_string(),
        all: nodes
            .iter()
            .map(|n| ProxyNode { name: n.to_string(), kind: "ss".to_string(), delay: None })
            .collect(),
    }
}

#[test]
fn node_delay_recorded_once() {
    let mut gs = vec![group("G", "Selector", "a", &["a", "b"]), group("G", "Selector", "a", &["b"])];
    set_node_delay(&mut gs, "G", "b", Some(120));
    assert_eq!(gs[0].all[1].delay, Some(120));
    assert_eq!(gs[1].all[0].delay, None);
    set_node_delay(&mut gs, "missing", "b", Some(1));
    assert_eq!(gs[0].all[0].delay, None);
}

#[test]
fn tray_proxy_ids_round_trip() {
    let id = proxy_item_id("My Group", "Node\u{1f}Two");
    match handle_menu(&id) {
        TrayAction::SelectProxy { group, node } => {
            assert_eq!(group, "My Group");
            assert_eq!(node, "Node\u{1f}Two");
        }
        _ => panic!("not a proxy selection"),
    }
    assert!(matches!(handle_menu("px\u{1f}nosep"), TrayAction::Nothing));
    assert!(matches!(handle_menu("show"), TrayAction::ShowWindow));
    assert!(matches!(handle_menu("quit-no-core"), TrayAction::QuitWithoutCore));
    assert!(matches!(handle_menu("toggle-proxy"), TrayAction::ToggleTun));
    assert!(matches!(handle_menu("bogus"), TrayAction::Nothing));
}

#[test]
fn tray_menu_lists_selectors() {
    let groups = vec![
        group("Proxy", "Selector", "b", &["a", "b"]),
        group("Auto", "URLTest", "a", &["a"]),
        group("Empty", "Selector", "", &[]),
    ];
    let menu = build_menu(&groups, true);
    assert_eq!(menu.len(), 12);
    match &menu[2] {
        MenuEntry::Item { id, label } => {
            assert_eq!(id, "toggle-proxy");
            assert_eq!(label, "tray.disconnect");
        }
        _ => panic!("expected the toggle item"),
    }
    match &menu[4] {
        MenuEntry::Proxies(ms) => {
            assert_eq!(ms.len(), 1);
            assert_eq!(ms[0].name, "Proxy");
            assert_eq!(ms[0].nodes[1].0, "px\u{1f}Proxy\u{1f}b");
            assert!(!ms[0].nodes[0].2);
            assert!(ms[0].nodes[1].2);
        }
        _ => panic!("expected the proxies submenu"),
    }
    let plain = build_menu(&vec![], false);
    assert_eq!(plain.len(), 10);
}

#[test]
fn connection_rows_read_from_snapshot() {
    let c = y("{id: c1, upload: 3, download: 4, chains: [n1, grp], rule: DOMAIN, rulePayload: a.com, metadata: {network: tcp, type: HTTPS, host: a.com, destinationPort: '443', process: app.exe}}");
    let (id, name, item) = nyx::state::parse_conn(&c);
    assert_eq!(id, "c1");
    assert_eq!(name, "app");
    assert_eq!(item.network, "TCP · HTTPS");
    assert_eq!(item.host, "a.com:443");
    assert_eq!(item.chains, "grp → n1");
    assert_eq!(item.rule, "DOMAIN(a.com)");
    assert_eq!((item.up, item.down), (3, 4));
}

#[test]
fn network_column_labels() {
    assert_eq!(network_label(Some("TCP".to_string()), "HTTPS".to_string()), "TCP · HTTPS");
    assert_eq!(network_label(Some("UDP".to_string()), String::new()), "UDP");
    assert_eq!(network_label(None, "HTTP".to_string()), "HTTP");
}
