use vstd::prelude::*;

use crate::connection::{
    app_config_bool, app_config_str, cfg_flag, cfg_text, object1, object2, path_bool, path_flag, text_value,
    with_member,
};
use crate::core_control::{CoreError, FailureKind};
use crate::json::{as_str, get, view_entries, view_list, Json, JsonV};
use crate::text::{own, str_eq};

verus! {

/// The core's state as the app shows it.
pub enum CoreStatus {
    Stopped,
    Starting,
    Running,
    /// The start failed; the reason as shown.
    Failed(String),
}

impl CoreStatus {
    pub fn is_running(&self) -> (r: bool)
        ensures
            r == (self is Running),
    {
        match self {
            CoreStatus::Running => true,
            _ => false,
        }
    }
}

/// The patch applied to the controlled config before a start: TUN as the last
/// session left it, and DNS on with it.
pub fn start_patch(connected: bool) -> (r: Json)
    ensures
        connected ==> r@ == JsonV::Object(
            seq![
                ("tun"@, JsonV::Object(seq![("enable"@, JsonV::Bool(true))])),
                ("dns"@, JsonV::Object(seq![("enable"@, JsonV::Bool(true))])),
            ],
        ),
        !connected ==> r@ == JsonV::Object(seq![("tun"@, JsonV::Object(seq![("enable"@, JsonV::Bool(false))]))]),
{
    if connected {
        object2("tun", object1("enable", Json::Bool(true)), "dns", object1("enable", Json::Bool(true)))
    } else {
        object1("tun", object1("enable", Json::Bool(false)))
    }
}

/// How a start ended.
pub enum StartOutcome {
    Started,
    Failed(CoreError),
    /// The task running the start was cancelled.
    Cancelled,
}

/// The status a start leaves: running, or failed with the error's text
/// (`the startup task was cancelled` for a cancelled start).
pub fn status_after_start(outcome: StartOutcome) -> (r: CoreStatus)
    ensures
        match outcome {
            StartOutcome::Started => r is Running,
            StartOutcome::Failed(e) => r matches CoreStatus::Failed(m) && m@ == e.detail@,
            StartOutcome::Cancelled => r matches CoreStatus::Failed(m) && m@ == "the startup task was cancelled"@,
        },
{
    match outcome {
        StartOutcome::Started => CoreStatus::Running,
        StartOutcome::Failed(e) => CoreStatus::Failed(e.message()),
        StartOutcome::Cancelled => {
            let e = CoreError::new(FailureKind::Other, own("the startup task was cancelled"));
            CoreStatus::Failed(e.message())
        },
    }
}

/// The window and tray settings the app config asks for: launch at login,
/// keep the window on top, show the tray icon.
pub fn runtime_flags(app_config: &Json) -> (r: (bool, bool, bool))
    ensures
        r.0 == cfg_flag(app_config@, "autoStart"@),
        r.1 == cfg_flag(app_config@, "alwaysOnTop"@),
        r.2 == !cfg_flag(app_config@, "disableTray"@),
{
    (
        app_config_bool(app_config, "autoStart"),
        app_config_bool(app_config, "alwaysOnTop"),
        !app_config_bool(app_config, "disableTray"),
    )
}

/// The system proxy to re-apply once the core is up: `sysProxy.enable` and
/// `affectVPNConnections`.
pub fn saved_sysproxy(app_config: &Json) -> (r: (bool, bool))
    ensures
        r.0 == path_flag(app_config@, "sysProxy.enable"@, false),
        r.1 == cfg_flag(app_config@, "affectVPNConnections"@),
{
    (path_bool(app_config, "sysProxy.enable", false), app_config_bool(app_config, "affectVPNConnections"))
}

/// What the controlled config says of TUN and the mode: TUN counts as on
/// only while the core runs; the mode defaults to `rule`.
pub fn tun_and_mode(controled_config: &Json, running: bool) -> (r: (bool, String))
    ensures
        r.0 == (path_flag(controled_config@, "tun.enable"@, false) && running),
        r.1@ == cfg_text(controled_config@, "mode"@, "rule"@),
{
    let tun = path_bool(controled_config, "tun.enable", false);
    (tun && running, app_config_str(controled_config, "mode", "rule"))
}

/// Whether the managed core binary is worth fetching ahead of time (not for
/// the system core).
pub fn prefetch_wanted(app_config: &Json) -> (r: bool)
    ensures
        r == (cfg_text(app_config@, "core"@, "mihomo"@) != "system"@),
{
    let core = app_config_str(app_config, "core", "mihomo");
    !str_eq(core.as_str(), "system")
}

/// Seconds between the watchdog's looks at the core.
pub const WATCH_INTERVAL_SECS: u64 = 5;

/// The shortest and longest wait before a failed start is retried.
pub const RETRY_MIN_SECS: u64 = 5;

pub const RETRY_MAX_SECS: u64 = 300;

/// The watchdog that revives a dead core and retries a failed start with a
/// growing delay.
pub struct Watchdog {
    pub backoff_secs: u64,
    pub waited_secs: u64,
}

/// What the watchdog asks for after a look.
#[derive(PartialEq, Eq, Structural, Clone, Copy, Debug)]
pub enum WatchAction {
    Nothing,
    /// The core should run: check that it still does, restart it if not.
    CheckAlive,
    /// Retry the failed start now.
    Restart,
}

impl Watchdog {
    /// The delay stays between its bounds and the time waited within it.
    pub open spec fn wf(&self) -> bool {
        &&& RETRY_MIN_SECS <= self.backoff_secs <= RETRY_MAX_SECS
        &&& self.waited_secs <= self.backoff_secs
    }

    pub fn new() -> (r: Watchdog)
        ensures
            r.wf(),
            r.backoff_secs == RETRY_MIN_SECS,
            r.waited_secs == 0,
    {
        Watchdog { backoff_secs: RETRY_MIN_SECS, waited_secs: 0 }
    }

    /// One look at the core's status, every watch interval: a running core
    /// resets the delay and is checked; a failed one is retried once the
    /// delay has passed, which then doubles (up to its maximum).
    pub fn tick(&mut self, status: &CoreStatus) -> (r: WatchAction)
        requires
            old(self).wf(),
        ensures
            final(self).wf(),
            match status {
                CoreStatus::Running => r == WatchAction::CheckAlive && final(self).backoff_secs
                    == RETRY_MIN_SECS && final(self).waited_secs == 0,
                CoreStatus::Failed(_) => if old(self).waited_secs + WATCH_INTERVAL_SECS < old(self).backoff_secs {
                    r == WatchAction::Nothing && final(self).backoff_secs == old(self).backoff_secs
                        && final(self).waited_secs == old(self).waited_secs + WATCH_INTERVAL_SECS
                } else {
                    r == WatchAction::Restart && final(self).waited_secs == 0 && final(self).backoff_secs == (if old(
                        self,
                    ).backoff_secs * 2 <= RETRY_MAX_SECS {
                        old(self).backoff_secs * 2
                    } else {
                        RETRY_MAX_SECS as int
                    })
                },
                _ => r == WatchAction::Nothing && *final(self) == *old(self),
            },
    {
        match status {
            CoreStatus::Running => {
                self.waited_secs = 0;
                self.backoff_secs = RETRY_MIN_SECS;
                WatchAction::CheckAlive
            },
            CoreStatus::Failed(_) => {
                let waited = self.waited_secs + WATCH_INTERVAL_SECS;
                if waited < self.backoff_secs {
                    self.waited_secs = waited;
                    return WatchAction::Nothing;
                }
                self.waited_secs = 0;
                let doubled = self.backoff_secs * 2;
                self.backoff_secs = if doubled <= RETRY_MAX_SECS {
                    doubled
                } else {
                    RETRY_MAX_SECS
                };
                WatchAction::Restart
            },
            _ => WatchAction::Nothing,
        }
    }
}

/// The settings a fresh install starts with, keys in order.
pub open spec fn default_app_config_v() -> JsonV {
    JsonV::Object(
        seq![
            ("appTheme"@, JsonV::Str("system"@)),
            ("autoCheckUpdate"@, JsonV::Bool(true)),
            ("autoCloseConnection"@, JsonV::Bool(true)),
            ("core"@, JsonV::Str("mihomo"@)),
            ("corePermissionMode"@, JsonV::Str("service"@)),
            ("delayTestConcurrency"@, JsonV::Int(50)),
            ("groupDisplayLayout"@, JsonV::Str("double"@)),
            ("hosts"@, JsonV::Array(Seq::empty())),
            ("maxLogDays"@, JsonV::Int(7)),
            ("proxyCols"@, JsonV::Str("auto"@)),
            ("proxyDisplayLayout"@, JsonV::Str("double"@)),
            ("proxyDisplayOrder"@, JsonV::Str("default"@)),
            ("silentStart"@, JsonV::Bool(false)),
            ("sysProxy"@, JsonV::Object(seq![("enable"@, JsonV::Bool(false)), ("mode"@, JsonV::Str("manual"@))])),
            ("useWindowFrame"@, JsonV::Bool(false)),
        ],
    )
}

/// The app config written on first launch.
pub fn default_app_config() -> (r: Json)
    ensures
        r@ == default_app_config_v(),
{
    let e: Vec<(String, Json)> = Vec::new();
    let e = with_member(e, "appTheme", text_value("system"));
    let e = with_member(e, "autoCheckUpdate", Json::Bool(true));
    let e = with_member(e, "autoCloseConnection", Json::Bool(true));
    let e = with_member(e, "core", text_value("mihomo"));
    let e = with_member(e, "corePermissionMode", text_value("service"));
    let e = with_member(e, "delayTestConcurrency", Json::Int(50));
    let e = with_member(e, "groupDisplayLayout", text_value("double"));
    let hosts: Vec<Json> = Vec::new();
    let e = with_member(e, "hosts", Json::Array(hosts));
    let e = with_member(e, "maxLogDays", Json::Int(7));
    let e = with_member(e, "proxyCols", text_value("auto"));
    let e = with_member(e, "proxyDisplayLayout", text_value("double"));
    let e = with_member(e, "proxyDisplayOrder", text_value("default"));
    let e = with_member(e, "silentStart", Json::Bool(false));
    let e = with_member(e, "sysProxy", object2("enable", Json::Bool(false), "mode", text_value("manual")));
    let e = with_member(e, "useWindowFrame", Json::Bool(false));
    proof {
        assert(view_list(Seq::<Json>::empty()) =~= Seq::<JsonV>::empty());
        assert(view_entries(Seq::<(String, Json)>::empty()) =~= Seq::<(Seq<char>, JsonV)>::empty());
    }
    let r = Json::Object(e);
    proof {
        assert(view_entries(e@) =~= default_app_config_v()->Object_0);
    }
    r
}

/// What the data-directory migration does: rename the legacy config when
/// only it exists, and drop the stale window state when present.
pub fn migration_plan(new_config_exists: bool, legacy_config_exists: bool, stale_window_state: bool) -> (r: (bool, bool))
    ensures
        r.0 == (!new_config_exists && legacy_config_exists),
        r.1 == stale_window_state,
{
    (!new_config_exists && legacy_config_exists, stale_window_state)
}

/// The language the UI starts in when none is saved.
pub const DEFAULT_LANGUAGE: &'static str = "en-US";

/// The UI languages offered, as `code=name` pairs separated by `;`.
pub const LANGUAGES: &'static str = "en-US=English;ru-RU=Русский;zh-CN=简体中文";

/// The saved UI language (the app config's `language`), else the default.
pub fn language_of(app_config: Option<&Json>) -> (r: String)
    ensures
        r@ == (match app_config {
            Some(c) => cfg_text(c@, "language"@, "en-US"@),
            None => "en-US"@,
        }),
{
    match app_config {
        Some(c) => app_config_str(c, "language", DEFAULT_LANGUAGE),
        None => own(DEFAULT_LANGUAGE),
    }
}

/// An app config with `lang` saved as its language.
pub open spec fn with_language_v(app_config: JsonV, lang: Seq<char>) -> JsonV {
    match app_config {
        JsonV::Object(e) => JsonV::Object(crate::json::obj_insert(e, "language"@, JsonV::Str(lang))),
        other => other,
    }
}

/// The app config with the chosen language saved (a config that is no
/// mapping is kept as it is).
pub fn with_language(app_config: Json, lang: &str) -> (r: Json)
    ensures
        r@ == with_language_v(app_config@, lang@),
{
    match app_config {
        Json::Object(e) => Json::Object(crate::merge::insert_key(e, own("language"), text_value(lang))),
        other => other,
    }
}

/// The language read from an app config after a language was saved into it
/// is that language; the other settings read as before.
pub proof fn law_saved_language_read_back(app_config: JsonV, lang: Seq<char>, key: Seq<char>)
    requires
        app_config is Object,
    ensures
        cfg_text(with_language_v(app_config, lang), "language"@, DEFAULT_LANGUAGE@) == lang,
        key != "language"@ ==> get(with_language_v(app_config, lang), key) == get(app_config, key),
{
    crate::merge::lemma_obj_get_insert(app_config->Object_0, "language"@, JsonV::Str(lang), "language"@);
    crate::merge::lemma_obj_get_insert(app_config->Object_0, "language"@, JsonV::Str(lang), key);
}

/// The active profile's id, when the profile list names a non-empty one.
pub fn current_profile_id(meta: &Json) -> (r: Option<String>)
    ensures
        match as_str(get(meta@, "current"@)) {
            Some(c) => if c.len() > 0 {
                r matches Some(x) && x@ == c
            } else {
                r is None
            },
            None => r is None,
        },
{
    match meta.get("current") {
        Some(v) => match v.as_str() {
            Some(c) => if !c.is_empty() {
                Some(own(c))
            } else {
                None
            },
            None => None,
        },
        None => None,
    }
}

/// The port the core's controller is given: the fixed one when free, else
/// the first free one after it (of `candidates_taken`, which tells for each
/// following port whether it is taken), else the fixed one after all.
pub fn choose_controller_port(default_port: u16, default_taken: bool, candidates_taken: &Vec<bool>) -> (r: u16)
    requires
        default_port as int + candidates_taken@.len() <= u16::MAX,
    ensures
        !default_taken ==> r == default_port,
        default_taken ==> (match first_false(candidates_taken@) {
            Some(k) => r == default_port + 1 + k,
            None => r == default_port,
        }),
{
    if !default_taken {
        return default_port;
    }
    let mut i: usize = 0;
    while i < candidates_taken.len()
        invariant
            i <= candidates_taken@.len(),
            forall|j: int| 0 <= j < i ==> #[trigger] candidates_taken@[j],
            default_port as int + candidates_taken@.len() <= u16::MAX,
            default_taken,
        decreases candidates_taken.len() - i,
    {
        if !candidates_taken[i] {
            proof {
                lemma_first_false(candidates_taken@, i as int);
            }
            return default_port + 1 + i as u16;
        }
        i += 1;
    }
    proof {
        lemma_first_false_none(candidates_taken@);
    }
    default_port
}

/// The position of the first `false`.
pub open spec fn first_false(s: Seq<bool>) -> Option<int>
    decreases s.len(),
{
    if s.len() == 0 {
        None
    } else if !s[0] {
        Some(0)
    } else {
        match first_false(s.drop_first()) {
            Some(k) => Some(k + 1),
            None => None,
        }
    }
}

pub proof fn lemma_first_false(s: Seq<bool>, i: int)
    requires
        0 <= i < s.len(),
        !s[i],
        forall|j: int| 0 <= j < i ==> #[trigger] s[j],
    ensures
        first_false(s) == Some(i),
    decreases i,
{
    if i > 0 {
        let t = s.drop_first();
        assert forall|j: int| 0 <= j < i - 1 implies #[trigger] t[j] by {
            assert(t[j] == s[j + 1]);
        }
        lemma_first_false(t, i - 1);
    }
}

pub proof fn lemma_first_false_none(s: Seq<bool>)
    requires
        forall|j: int| 0 <= j < s.len() ==> #[trigger] s[j],
    ensures
        first_false(s) is None,
    decreases s.len(),
{
    if s.len() > 0 {
        let t = s.drop_first();
        assert forall|j: int| 0 <= j < t.len() implies #[trigger] t[j] by {
            assert(t[j] == s[j + 1]);
        }
        lemma_first_false_none(t);
    }
}

} // verus!
