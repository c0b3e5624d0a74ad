use nyx::deep_link::{deep_link_from, UrlParts};
use nyx::profiles::{base64_payload, header_value_from};
use nyx::bootstrap::{default_app_config, migration_plan, start_patch, status_after_start, CoreStatus, StartOutcome, WatchAction, Watchdog};
use nyx::core_control::{
    alive, check_system_core, choose_backend, core_source, maybe_run_as_service_from_args, max_log_days,
    owned_by_us, parse_pid, path_join, pid_file, read_secret, stop_plan, summarize, validation_outcome,
    Backend, ChildProbe, ControllerUrl, CoreError, CoreSource, FailureKind, ReadyAction, ReadyEvent,
    ReadyWait, StopPlan,
};
use nyx::deep_link::{
    deep_link_arg, forward_url, install_item, is_relaunch, launcher_candidates, parse_deep_link,
    received_url, upsert_default_application, DeepLink,
};
use nyx::json::Json;
use nyx::keys::{hotkey_bindings, key_to_code, keystroke_to_accel, pretty_accel, HotkeyAction};
use nyx::pixels::{fix_transparent, rgb_to_rgba, rgba_to_argb};
use nyx::providers::{clean_provider_path, hex, provider_source, ProviderSource};
use nyx::proxies::{delay_test_params, groups, restore_plan, save_selection, select_request, text_less};
use nyx::streaming::{connections_url, logs_url, split_log_buffer};
use nyx::sysproxy::{apply, clear, env_proxy_change, mixed_port, session_honors_proxy, EnvProxyChange};
use nyx::updater::{check_release, release_tag, self_update_allowed, update_from, windows_asset_url};

fn conv(v: &serde_yaml::Value) -> Json {
    match v {
        serde_yaml::Value::Null => Json::Null,
        serde_yaml::Value::Bool(b) => Json::Bool(*b),
        serde_yaml::Value::Number(n) => {
            if let Some(i) = n.as_i64() {
                Json::Int(i as i128)
            } else if let Some(u) = n.as_u64() {
                Json::Int(u as i128)
            } else {
                Json::Float(n.to_string())
            }
        }
        serde_yaml::Value::String(s) => Json::Str(s.clone()),
        serde_yaml::Value::Sequence(a) => Json::Array(a.iter().map(conv).collect()),
        serde_yaml::Value::Mapping(m) => Json::Object(
            m.iter()
                .map(|(k, v)| (k.as_str().unwrap_or_default().to_string(), conv(v)))
                .collect(),
        ),
        serde_yaml::Value::Tagged(t) => conv(&t.value),
    }
}

fn y(text: &str) -> Json {
    conv(&serde_yaml::from_str(text).unwrap())
}

fn show(j: &Json) -> String {
    match j {
        Json::Null => "null".to_string(),
        Json::Bool(b) => b.to_string(),
        Json::Int(n) => n.to_string(),
        Json::Float(s) => s.clone(),
        Json::Str(s) => s.clone(),
        Json::Array(a) => format!("[{}]", a.iter().map(show).collect::<Vec<_>>().join(",")),
        Json::Object(e) => format!(
            "{{{}}}",
            e.iter()
                .map(|(k, v)| format!("{}:{}", k, show(v)))
                .collect::<Vec<_>>()
                .join(",")
        ),
    }
}

fn entries(j: Json) -> Vec<(String, Json)> {
    match j {
        Json::Object(e) => e,
        _ => panic!("not a mapping"),
    }
}

#[test]
fn keys_map_to_codes() {
    assert_eq!(key_to_code("t").as_deref(), Some("KeyT"));
    assert_eq!(key_to_code("T").as_deref(), Some("KeyT"));
    assert_eq!(key_to_code("1").as_deref(), Some("Digit1"));
    assert_eq!(key_to_code("f5").as_deref(), Some("F5"));
    assert_eq!(key_to_code("F24").as_deref(), Some("F24"));
    assert_eq!(key_to_code("f+07").as_deref(), Some("F7"));
    assert_eq!(key_to_code("f25"), None);
    assert_eq!(key_to_code("f0"), None);
    assert_eq!(key_to_code("-").as_deref(), Some("Minus"));
    assert_eq!(key_to_code("\\").as_deref(), Some("Backslash"));
    assert_eq!(key_to_code("space").as_deref(), Some("Space"));
    assert_eq!(key_to_code("pagedown").as_deref(), Some("PageDown"));
    assert_eq!(key_to_code("é"), None);
    assert_eq!(key_to_code("fn"), None);
}

#[test]
fn accelerators_and_display() {
    assert_eq!(keystroke_to_accel("t", true, false, true, false).as_deref(), Some("Ctrl+Shift+KeyT"));
    assert_eq!(keystroke_to_accel("f5", false, true, false, true).as_deref(), Some("Alt+Super+F5"));
    assert_eq!(keystroke_to_accel("é", true, false, false, false), None);
    assert_eq!(pretty_accel("Ctrl+Shift+KeyT", false), "Ctrl+Shift+T");
    assert_eq!(pretty_accel("Super+Digit1", true), "Win+1");
    assert_eq!(pretty_accel("Super+Digit1", false), "Super+1");
}

#[test]
fn hotkey_bindings_from_config() {
    let cfg = y("{showWindowShortcut: ' Ctrl+KeyN ', triggerTunShortcut: '', ruleModeShortcut: Alt+KeyR, quitWithoutCoreShortcut: 3}");
    let b = hotkey_bindings(&cfg);
    assert_eq!(b.len(), 2);
    assert_eq!(b[0].0, "Ctrl+KeyN");
    assert_eq!(b[0].1, HotkeyAction::ToggleWindow);
    assert_eq!(b[1].0, "Alt+KeyR");
    assert_eq!(b[1].1, HotkeyAction::RuleMode);
}

#[test]
fn mimeapps_new_file() {
    assert_eq!(
        upsert_default_application("", "x-scheme-handler/nyx", "nyx-url.desktop"),
        "[Default Applications]\nx-scheme-handler/nyx=nyx-url.desktop\n"
    );
}

#[test]
fn mimeapps_new_section_after_blank_line() {
    assert_eq!(
        upsert_default_application("[Added Associations]\nfoo=bar\n", "x-scheme-handler/nyx", "nyx-url.desktop"),
        "[Added Associations]\nfoo=bar\n\n[Default Applications]\nx-scheme-handler/nyx=nyx-url.desktop\n"
    );
}

#[test]
fn mimeapps_replaces_entry() {
    let before = "[Default Applications]\nx-scheme-handler/nyx=old.desktop\ntext/html=ff.desktop\n[Other]\na=b";
    assert_eq!(
        upsert_default_application(before, "x-scheme-handler/nyx", "nyx-url.desktop"),
        "[Default Applications]\nx-scheme-handler/nyx=nyx-url.desktop\ntext/html=ff.desktop\n[Other]\na=b\n"
    );
}

#[test]
fn mimeapps_adds_entry_at_section_end() {
    let before = "[Default Applications]\r\ntext/html=ff.desktop\n  [Other]\n";
    assert_eq!(
        upsert_default_application(before, "x-scheme-handler/nyx", "nyx-url.desktop"),
        "[Default Applications]\ntext/html=ff.desktop\nx-scheme-handler/nyx=nyx-url.desktop\n  [Other]\n"
    );
}

#[test]
fn deep_links_read() {
    match parse_deep_link("nyx://install-config?url=https%3A%2F%2Fexample.com%2Fsub&name=My%20Sub") {
        DeepLink::InstallConfig { url, name } => {
            assert_eq!(url, "https://example.com/sub");
            assert_eq!(name, "My Sub");
        }
        _ => panic!("expected an install"),
    }
    match parse_deep_link("nyx://install-config?url=a&url=b") {
        DeepLink::InstallConfig { url, name } => {
            assert_eq!(url, "b");
            assert_eq!(name, "");
        }
        _ => panic!("expected an install"),
    }
    assert!(matches!(parse_deep_link("nyx://install-config?name=x"), DeepLink::MissingUrl));
    assert!(matches!(parse_deep_link("nyx://frobnicate"), DeepLink::Unknown(c) if c == "frobnicate"));
    assert!(matches!(parse_deep_link("not a url"), DeepLink::Unparsable));
    assert_eq!(show(&install_item("u", "n")), "{type:remote,url:u,name:n}");
}

#[test]
fn instance_arguments() {
    let args = vec!["nyx".to_string(), "--x".to_string(), "nyx://show".to_string()];
    assert_eq!(deep_link_arg(&args).as_deref(), Some("nyx://show"));
    assert_eq!(forward_url(&vec!["nyx".to_string()]), "nyx://show");
    assert_eq!(received_url("  nyx://a \n").as_deref(), Some("nyx://a"));
    assert_eq!(received_url(" \n"), None);
    assert!(is_relaunch(&vec!["nyx".to_string(), "--nyx-relaunch".to_string()]));
    assert!(!is_relaunch(&args));
    assert_eq!(
        launcher_candidates(Some("ann"), Some("/home/ann"), "nyx"),
        vec!["/etc/profiles/per-user/ann/bin/nyx", "/home/ann/.nix-profile/bin/nyx", "/run/current-system/sw/bin/nyx"]
    );
}

#[test]
fn sysproxy_requests() {
    assert_eq!(mixed_port(Some(&y("{mixed-port: 7891}"))), 7891);
    assert_eq!(mixed_port(Some(&y("{mixed-port: 65537}"))), 1);
    assert_eq!(mixed_port(Some(&y("{port: 1}"))), 7890);
    assert_eq!(mixed_port(None), 7890);
    let on = apply(true, false, Some(&y("{mixed-port: 7000}")), true);
    assert!(on.enable);
    assert_eq!(on.port, 7000);
    assert_eq!(on.host, "127.0.0.1");
    assert!(on.bypass.starts_with("<local>;localhost;127.*"));
    let off = clear(&y("{affectVPNConnections: true}"), false);
    assert!(!off.enable && off.affect_vpn);
    assert_eq!(off.port, 0);
    assert_eq!(off.bypass, "localhost,127.0.0.0/8,::1,10.0.0.0/8,172.16.0.0/12,192.168.0.0/16");
    assert!(session_honors_proxy(Some("ubuntu:GNOME")));
    assert!(session_honors_proxy(Some("KDE")));
    assert!(!session_honors_proxy(Some("sway")));
    assert!(!session_honors_proxy(None));
    match env_proxy_change(true, 7890) {
        EnvProxyChange::Export(v) => {
            assert_eq!(v[0], "http_proxy=http://127.0.0.1:7890");
            assert_eq!(v[5], "NO_PROXY=localhost,127.0.0.1,::1");
        }
        _ => panic!("expected exports"),
    }
    assert!(matches!(env_proxy_change(false, 7890), EnvProxyChange::Unset(v) if v.len() == 6));
}

#[test]
fn update_checks() {
    match check_release("1.0.0", "1.1.0".to_string(), Some("notes".to_string())) {
        Ok(Some(u)) => {
            assert_eq!(u.version, "1.1.0");
            assert_eq!(u.changelog, "notes");
        }
        _ => panic!("expected an update"),
    }
    assert!(matches!(check_release("1.1.0", "1.1.0".to_string(), None), Ok(None)));
    assert!(matches!(check_release("1.2.0", "1.1.0".to_string(), None), Ok(None)));
    assert!(check_release("x", "1.1.0".to_string(), None).is_err());
    assert!(matches!(update_from(Ok(true), "2".to_string(), None), Ok(Some(u)) if u.changelog.is_empty()));
    assert!(matches!(update_from(Err("e".to_string()), "2".to_string(), None), Err(e) if e == "e"));
    assert_eq!(release_tag("1.2.3"), "v1.2.3");
    let assets = vec![
        ("nyx-linux.tar.gz".to_string(), "u0".to_string()),
        ("NYX-x86_64-WINDOWS.zip".to_string(), "u1".to_string()),
    ];
    assert_eq!(windows_asset_url(&assets), Ok("u1".to_string()));
    assert_eq!(
        windows_asset_url(&vec![]),
        Err("release asset Nyx-x86_64-windows.zip not found".to_string())
    );
    assert!(self_update_allowed(true, true, "/nix/store/x/nyx").is_err());
    assert_eq!(
        self_update_allowed(false, false, "/usr/bin/nyx"),
        Err("no write access to /usr/bin/nyx — update Nyx via your package manager".to_string())
    );
    assert!(self_update_allowed(false, true, "/opt/nyx").is_ok());
}

#[test]
fn core_output_summaries() {
    assert_eq!(summarize("banner\n\n a \nb\nc\nd\n"), "b; c; d");
    assert_eq!(summarize("only\r\n"), "only");
    assert_eq!(summarize(" \n"), "the configuration was rejected by the core");
    assert!(validation_outcome(false, false, "", "").is_ok());
    assert!(validation_outcome(true, true, "", "").is_ok());
    assert!(validation_outcome(true, false, "", "flag provided but not defined: -t").is_ok());
    match validation_outcome(true, false, "line1\n", "err: bad key\n") {
        Err(e) => {
            assert_eq!(e.kind, FailureKind::ConfigInvalid);
            assert_eq!(e.detail, "line1; err: bad key");
        }
        Ok(()) => panic!("expected a rejection"),
    }
}

#[test]
fn backend_choice_and_stop() {
    assert!(matches!(choose_backend(&y("{corePermissionMode: direct}"), false), Ok(Backend::Direct)));
    assert!(matches!(choose_backend(&y("{}"), true), Ok(Backend::Service)));
    match choose_backend(&y("{}"), false) {
        Err(e) => {
            assert_eq!(e.kind, FailureKind::ServiceUnavailable);
            assert_eq!(e.message(), "the Nyx service is not installed");
        }
        _ => panic!("expected an error"),
    }
    assert_eq!(stop_plan(None), StopPlan::StopBoth);
    assert_eq!(stop_plan(Some(Backend::Direct)), StopPlan::StopChild);
    assert_eq!(alive(ChildProbe::Running), (true, false));
    assert_eq!(alive(ChildProbe::Gone), (false, true));
    assert_eq!(alive(ChildProbe::NoChild), (false, false));
    assert_eq!(maybe_run_as_service_from_args(), None);
    let e = CoreError::new(FailureKind::Timeout, "late".to_string());
    assert_eq!(e.message(), "late");
    let mut c = ControllerUrl::new();
    assert_eq!(c.controller_url(), "");
    c.set_controller_url("http://127.0.0.1:9097".to_string());
    assert_eq!(c.controller_url(), "http://127.0.0.1:9097");
}

#[test]
fn ready_wait_steps() {
    let mut w = ReadyWait::new("http://x".to_string());
    for _ in 0..4 {
        assert!(matches!(w.step(ReadyEvent::Responded(false)), ReadyAction::CheckDeadline));
        assert!(matches!(w.step(ReadyEvent::DeadlinePassed(false)), ReadyAction::SleepThenPoll));
    }
    assert!(matches!(w.step(ReadyEvent::Responded(false)), ReadyAction::CheckAlive));
    assert!(matches!(w.step(ReadyEvent::Alive(true)), ReadyAction::CheckDeadline));
    match w.step(ReadyEvent::DeadlinePassed(true)) {
        ReadyAction::Fail(e) => {
            assert_eq!(e.kind, FailureKind::Timeout);
            assert_eq!(e.detail, "the core did not answer on http://x within 20s");
        }
        _ => panic!("expected a time-out"),
    }
    assert!(matches!(w.step(ReadyEvent::Alive(false)), ReadyAction::Fail(e) if e.kind == FailureKind::ConfigInvalid));
    assert!(matches!(w.step(ReadyEvent::Responded(true)), ReadyAction::Ready));
}

#[test]
fn core_files_and_sources() {
    assert!(owned_by_us(Some(" mihomo\n")));
    assert!(!owned_by_us(Some("bash")));
    assert!(!owned_by_us(None));
    assert_eq!(parse_pid(" 123\n"), Some(123));
    assert_eq!(parse_pid("+7"), Some(7));
    assert_eq!(parse_pid("-1"), None);
    assert_eq!(parse_pid("4294967296"), None);
    assert_eq!(parse_pid(""), None);
    assert_eq!(path_join("/a/b", "mihomo.pid", false), "/a/b/mihomo.pid");
    assert_eq!(path_join("/a/b/", "x", false), "/a/b/x");
    assert_eq!(path_join("C:\\d", "x", true), "C:\\d\\x");
    assert_eq!(path_join("", "x", false), "x");
    assert_eq!(pid_file("/data", false), "/data/mihomo.pid");
    assert!(matches!(core_source(&y("{core: system, systemCorePath: /usr/bin/mihomo}")), Ok(CoreSource::System(p)) if p == "/usr/bin/mihomo"));
    assert!(matches!(core_source(&y("{core: system}")), Err(e) if e.detail == "no system core path is configured"));
    assert!(matches!(core_source(&y("{}")), Ok(CoreSource::Managed(k)) if k == "mihomo"));
    assert!(matches!(check_system_core("/x".to_string(), false), Err(e) if e.detail == "/x does not exist" && e.kind == FailureKind::CoreMissing));
    assert_eq!(max_log_days(&y("{maxLogDays: 4294967297}")), 1);
    assert_eq!(max_log_days(&y("{}")), 7);
    assert_eq!(read_secret(Some(&y("{secret: s3}"))).as_deref(), Some("s3"));
    assert_eq!(read_secret(Some(&y("{secret: ''}"))), None);
}

#[test]
fn startup_helpers() {
    assert_eq!(show(&start_patch(true)), "{tun:{enable:true},dns:{enable:true}}");
    assert_eq!(show(&start_patch(false)), "{tun:{enable:false}}");
    assert!(status_after_start(StartOutcome::Started).is_running());
    match status_after_start(StartOutcome::Cancelled) {
        CoreStatus::Failed(m) => assert_eq!(m, "the startup task was cancelled"),
        _ => panic!("expected a failure"),
    }
    let d = default_app_config();
    assert_eq!(
        show(&d),
        "{appTheme:system,autoCheckUpdate:true,autoCloseConnection:true,core:mihomo,corePermissionMode:service,delayTestConcurrency:50,groupDisplayLayout:double,hosts:[],maxLogDays:7,proxyCols:auto,proxyDisplayLayout:double,proxyDisplayOrder:default,silentStart:false,sysProxy:{enable:false,mode:manual},useWindowFrame:false}"
    );
    assert_eq!(migration_plan(false, true, true), (true, true));
    assert_eq!(migration_plan(true, true, false), (false, false));
}

#[test]
fn watchdog_backoff_doubles_to_cap() {
    let mut w = Watchdog::new();
    let failed = CoreStatus::Failed("x".to_string());
    assert_eq!(w.tick(&failed), WatchAction::Restart);
    assert_eq!(w.backoff_secs, 10);
    assert_eq!(w.tick(&failed), WatchAction::Nothing);
    assert_eq!(w.tick(&failed), WatchAction::Restart);
    assert_eq!(w.backoff_secs, 20);
    for _ in 0..200 {
        w.tick(&failed);
    }
    assert_eq!(w.backoff_secs, 300);
    assert_eq!(w.tick(&CoreStatus::Running), WatchAction::CheckAlive);
    assert_eq!(w.backoff_secs, 5);
    assert_eq!(w.tick(&CoreStatus::Stopped), WatchAction::Nothing);
}

#[test]
fn log_stream_framing() {
    let (lines, rest) = split_log_buffer("{a}\n  \n {b} \n{c");
    assert_eq!(lines, vec!["{a}", "{b}"]);
    assert_eq!(rest, "{c");
    let (none, all) = split_log_buffer("partial");
    assert!(none.is_empty());
    assert_eq!(all, "partial");
    assert_eq!(connections_url("http://c"), "http://c/connections");
    assert_eq!(logs_url("http://c"), "http://c/logs?level=info");
}

#[test]
fn proxy_groups_filtered_resolved_sorted() {
    let proxies = entries(y("{GLOBAL: {name: GLOBAL, type: Selector, all: [n1]}, b-group: {name: b-group, type: URLTest, all: [n1, missing, 3]}, A-group: {name: A-group, type: Selector, all: [n1], hidden: false}, hidden: {name: hidden, type: Selector, hidden: true}, n1: {name: n1, type: Shadowsocks}}"));
    let gs = groups(&proxies);
    assert_eq!(gs.len(), 2);
    assert_eq!(show(&gs[0]), "{name:A-group,type:Selector,all:[{name:n1,type:Shadowsocks}],hidden:false}");
    assert_eq!(show(&gs[1]), "{name:b-group,type:URLTest,all:[{name:n1,type:Shadowsocks}]}");
    assert!(text_less("A", "b"));
    assert!(text_less("ab", "abc"));
    assert!(!text_less("b", "b"));
}

#[test]
fn selections_restored_when_still_valid() {
    let proxies = entries(y("{A: {type: Selector, all: [n1, n2]}, B: {type: URLTest, all: [n1]}}"));
    let sel = entries(y("{A: n2, B: n1, C: x, D: 5}"));
    let plan = restore_plan(&sel, &proxies);
    assert_eq!(plan, vec![("A".to_string(), "n2".to_string())]);
    let (url, body) = select_request("http://c", "My Group", "n");
    assert_eq!(url, "http://c/proxies/My%20Group");
    assert_eq!(show(&body), "{name:n}");
    let saved = save_selection(entries(y("{A: n1}")), "B", "x");
    assert_eq!(show(&Json::Object(saved)), "{A:n1,B:x}");
}

#[test]
fn delay_test_parameters() {
    let (u, t) = delay_test_params(None, &y("{delayTestUrl: '', delayTestTimeout: 3000}"));
    assert_eq!(u, "https://cp.cloudflare.com");
    assert_eq!(t, 3000);
    let (u2, t2) = delay_test_params(Some("http://t".to_string()), &y("{delayTestUrl: http://d}"));
    assert_eq!(u2, "http://t");
    assert_eq!(t2, 5000);
    let (u3, _) = delay_test_params(Some(String::new()), &y("{delayTestUrl: http://d}"));
    assert_eq!(u3, "http://d");
}

#[test]
fn provider_sources() {
    let cfg = y("{rule-providers: {r1: {type: http, url: abc, behavior: classical}, r2: {type: http, url: abc, format: MRS}, r3: {type: Inline, payload: [DOMAIN,a.com]}, r4: {type: file, path: ./rules/x.MRS}, r5: {type: http}}}");
    assert!(matches!(provider_source(&cfg, "r1", true), Ok(ProviderSource::File(p)) if p == "rules/900150983cd24fb0d6963f7d28e17f72"));
    assert!(matches!(provider_source(&cfg, "r2", true), Ok(ProviderSource::Mrs { path, behavior }) if path == "rules/900150983cd24fb0d6963f7d28e17f72" && behavior == "domain"));
    assert!(matches!(provider_source(&cfg, "r3", true), Ok(ProviderSource::Inline(doc)) if show(&doc) == "{rules:[DOMAIN,a.com]}"));
    assert!(matches!(provider_source(&cfg, "r4", true), Ok(ProviderSource::Mrs { path, .. }) if path == "./rules/x.MRS"));
    assert!(matches!(provider_source(&cfg, "r5", true), Err(e) if e == "provider has neither a path nor a url"));
    assert!(matches!(provider_source(&cfg, "zz", true), Err(e) if e == "provider 'zz' not found in runtime config"));
    assert!(matches!(provider_source(&cfg, "r1", false), Err(_)));
    assert_eq!(hex(&[0, 255, 16]), "00ff10");
    assert_eq!(clean_provider_path("././rules/x"), "rules/x");
    assert_eq!(clean_provider_path(".\\.\\a"), "a");
    assert_eq!(clean_provider_path("/abs/x"), "/abs/x");
}

#[test]
fn pixel_layouts() {
    assert_eq!(rgb_to_rgba(&vec![1, 2, 3, 4, 5, 6]), vec![1, 2, 3, 255, 4, 5, 6, 255]);
    assert_eq!(rgba_to_argb(&vec![1, 2, 3, 4]), vec![4, 1, 2, 3]);
    assert_eq!(fix_transparent(vec![1, 2, 3, 0, 4, 5, 6, 0, 9]), vec![1, 2, 3, 255, 4, 5, 6, 255, 9]);
    assert_eq!(fix_transparent(vec![1, 2, 3, 7, 4, 5, 6, 0]), vec![1, 2, 3, 7, 4, 5, 6, 0]);
}

#[test]
fn saved_selection_is_restored() {
    let proxies = entries(y("{A: {type: Selector, all: [n1, n2]}, B: {type: Selector, all: [m]}}"));
    let saved = save_selection(entries(y("{A: n1, B: m}")), "A", "n2");
    assert_eq!(show(&Json::Object(nyx::json::duplicate_entries(&saved))), "{A:n2,B:m}");
    let plan = restore_plan(&saved, &proxies);
    assert_eq!(plan, vec![("A".to_string(), "n2".to_string()), ("B".to_string(), "m".to_string())]);
    let stale = save_selection(saved, "A", "gone");
    assert_eq!(restore_plan(&stale, &proxies), vec![("B".to_string(), "m".to_string())]);
}

#[test]
fn forwarded_deep_link_arrives_unchanged() {
    let args = vec!["nyx".to_string(), "nyx://install-config?url=https%3A%2F%2Fa.b%2Fc".to_string()];
    let sent = forward_url(&args);
    assert_eq!(received_url(&sent), Some(sent.clone()));
    let plain = forward_url(&vec!["nyx".to_string()]);
    assert_eq!(received_url(&plain), Some("nyx://show".to_string()));
}

#[test]
fn saved_language_reads_back() {
    let cfg = y("{language: en-US, core: mihomo}");
    let saved = nyx::bootstrap::with_language(cfg, "ru-RU");
    assert_eq!(nyx::bootstrap::language_of(Some(&saved)), "ru-RU");
    assert_eq!(show(&saved), "{language:ru-RU,core:mihomo}");
    let fresh = nyx::bootstrap::with_language(y("{core: mihomo}"), "zh-CN");
    assert_eq!(nyx::bootstrap::language_of(Some(&fresh)), "zh-CN");
    assert_eq!(nyx::bootstrap::language_of(None), "en-US");
}

#[test]
fn mimeapps_registration_twice_is_once() {
    let key = "x-scheme-handler/nyx";
    let value = "nyx.desktop";
    for contents in ["", "[Added Associations]\na=b\n", "[Default Applications]\nx-scheme-handler/nyx=old.desktop\n[Other]\n", "[Default Applications]\nfoo=bar\n"] {
        let once = upsert_default_application(contents, key, value);
        let twice = upsert_default_application(&once, key, value);
        assert_eq!(twice, once);
    }
}

#[test]
fn mimeapps_registration_twice_with_a_carriage_return_value() {
    let once = upsert_default_application("[Default Applications]\nfoo=bar\n", "x-scheme-handler/nyx", "nyx.desktop\r");
    assert_eq!(once, "[Default Applications]\nfoo=bar\nx-scheme-handler/nyx=nyx.desktop\r\n");
    assert_eq!(upsert_default_application(&once, "x-scheme-handler/nyx", "nyx.desktop\r"), once);
}

#[test]
fn deep_links_from_parsed_parts() {
    let parts = UrlParts {
        host: Some("install-config".to_string()),
        path: String::new(),
        query: vec![("url".to_string(), "https://a/b".to_string()), ("name".to_string(), "N".to_string())],
    };
    match deep_link_from(Some(parts)) {
        DeepLink::InstallConfig { url, name } => {
            assert_eq!(url, "https://a/b");
            assert_eq!(name, "N");
        }
        _ => panic!("expected an install link"),
    }
    assert!(matches!(deep_link_from(None), DeepLink::Unparsable));
    let other = UrlParts { host: None, path: "//show".to_string(), query: Vec::new() };
    assert!(matches!(deep_link_from(Some(other)), DeepLink::Unknown(c) if c == "show"));
}

#[test]
fn header_values_after_decoding() {
    assert_eq!(base64_payload("base64: aGk= ").as_deref(), Some("aGk="));
    assert_eq!(base64_payload("plain"), None);
    assert_eq!(header_value_from("base64:aGk=", Some(b"hi".to_vec())), "hi");
    assert_eq!(header_value_from("base64:xx", Some(vec![0xff])), "base64:xx");
    assert_eq!(header_value_from("base64:!", None), "base64:!");
}
