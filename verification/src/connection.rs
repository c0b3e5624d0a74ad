use vstd::prelude::*;

use crate::json::{
    as_array, as_bool, as_str, get, keys_unique, lemma_view_entries_push, lemma_view_list_index, obj_get,
    lemma_view_list_len, lookup_path, path_get, view_entries, view_list, Json, JsonV,
};
use crate::merge::{law_merge_patch_lookup, merge_patch_v};
use crate::state::{field_text, text_or, ProfileItem};
use crate::text::{own, split_char, str_eq};

verus! {

/// An empty object.
pub fn empty_object() -> (r: Json)
    ensures
        r@ == JsonV::Object(Seq::empty()),
{
    let e: Vec<(String, Json)> = Vec::new();
    assert(view_entries(e@) =~= Seq::<(Seq<char>, JsonV)>::empty());
    Json::Object(e)
}

/// `e` with the member `k: v` appended.
pub fn with_member(e: Vec<(String, Json)>, k: &str, v: Json) -> (r: Vec<(String, Json)>)
    ensures
        view_entries(r@) == view_entries(e@).push((k@, v@)),
{
    let mut e = e;
    let x = (own(k), v);
    proof {
        lemma_view_entries_push(e@, x);
    }
    e.push(x);
    e
}

/// The object `{ k: v }`.
pub fn object1(k: &str, v: Json) -> (r: Json)
    ensures
        r@ == JsonV::Object(seq![(k@, v@)]),
{
    let e = with_member(Vec::new(), k, v);
    assert(view_entries(Seq::<(String, Json)>::empty()) =~= Seq::<(Seq<char>, JsonV)>::empty());
    assert(view_entries(e@) =~= seq![(k@, v@)]);
    Json::Object(e)
}

/// The object `{ k1: v1, k2: v2 }`.
pub fn object2(k1: &str, v1: Json, k2: &str, v2: Json) -> (r: Json)
    ensures
        r@ == JsonV::Object(seq![(k1@, v1@), (k2@, v2@)]),
{
    let e = with_member(with_member(Vec::new(), k1, v1), k2, v2);
    assert(view_entries(Seq::<(String, Json)>::empty()) =~= Seq::<(Seq<char>, JsonV)>::empty());
    assert(view_entries(e@) =~= seq![(k1@, v1@), (k2@, v2@)]);
    Json::Object(e)
}

pub fn text_value(s: &str) -> (r: Json)
    ensures
        r@ == JsonV::Str(s@),
{
    Json::Str(own(s))
}

/// A top-level flag of the app config; absent or not a boolean reads `false`.
pub open spec fn cfg_flag(cfg: JsonV, key: Seq<char>) -> bool {
    as_bool(get(cfg, key)) == Some(true)
}

/// A top-level text of the app config, or `default`.
pub open spec fn cfg_text(cfg: JsonV, key: Seq<char>, default: Seq<char>) -> Seq<char> {
    text_or(as_str(get(cfg, key)), default)
}

/// Reads a top-level boolean flag of the app config (`false` when absent).
pub fn app_config_bool(cfg: &Json, key: &str) -> (r: bool)
    ensures
        r == cfg_flag(cfg@, key@),
{
    match cfg.get(key) {
        Some(v) => match v.as_bool() {
            Some(b) => b,
            None => false,
        },
        None => false,
    }
}

/// Reads a top-level text of the app config, or `default`.
pub fn app_config_str(cfg: &Json, key: &str, default: &str) -> (r: String)
    ensures
        r@ == cfg_text(cfg@, key@, default@),
{
    crate::state::text_field_or(cfg, key, default)
}

/// A boolean under a dot path; absent or not a boolean reads `default`.
pub open spec fn path_flag(cfg: JsonV, path: Seq<char>, default: bool) -> bool {
    match path_get(cfg, split_char(path, '.')) {
        Some(JsonV::Bool(b)) => b,
        _ => default,
    }
}

/// Reads a boolean from a config by dot path (e.g. `sysProxy.enable`).
pub fn path_bool(cfg: &Json, path: &str, default: bool) -> (r: bool)
    ensures
        r == path_flag(cfg@, path@, default),
{
    match lookup_path(cfg, path) {
        Some(v) => match v.as_bool() {
            Some(b) => b,
            None => default,
        },
        None => default,
    }
}

/// Whether the next launch should bring TUN back: the last session ended
/// connected, in TUN mode (the default mode).
pub fn restore_tun(cfg: &Json) -> (r: bool)
    ensures
        r == (cfg_flag(cfg@, "lastConnected"@) && cfg_text(cfg@, "connectionMode"@, "tun"@)
            == "tun"@),
{
    if !app_config_bool(cfg, "lastConnected") {
        return false;
    }
    let mode = app_config_str(cfg, "connectionMode", "tun");
    str_eq(mode.as_str(), "tun")
}

/// How the proxy reaches the machine.
#[derive(Debug, Clone, Copy, PartialEq, Eq, Structural)]
pub enum ConnectionMode {
    Tun,
    SysProxy,
}

/// The configured connection mode: system proxy only when `connectionMode`
/// says `sysproxy`, TUN otherwise.
pub fn connection_mode(cfg: &Json) -> (r: ConnectionMode)
    ensures
        r == (if as_str(get(cfg@, "connectionMode"@)) == Some("sysproxy"@) {
            ConnectionMode::SysProxy
        } else {
            ConnectionMode::Tun
        }),
{
    match cfg.get("connectionMode") {
        Some(v) => match v.as_str() {
            Some(s) => if str_eq(s, "sysproxy") {
                ConnectionMode::SysProxy
            } else {
                ConnectionMode::Tun
            },
            None => ConnectionMode::Tun,
        },
        None => ConnectionMode::Tun,
    }
}

/// The name a connection mode is stored under.
pub fn mode_name(mode: ConnectionMode) -> (r: &'static str)
    ensures
        r@ == (match mode {
            ConnectionMode::Tun => "tun"@,
            ConnectionMode::SysProxy => "sysproxy"@,
        }),
{
    match mode {
        ConnectionMode::Tun => "tun",
        ConnectionMode::SysProxy => "sysproxy",
    }
}

/// Whether the proxy is on: TUN is enabled or the system proxy is set.
pub fn connected(tun_enabled: bool, cfg: &Json) -> (r: bool)
    ensures
        r == (tun_enabled || path_flag(cfg@, "sysProxy.enable"@, false)),
{
    tun_enabled || path_bool(cfg, "sysProxy.enable", false)
}

/// The controlled-config patch that switches TUN: on also turns DNS on.
pub open spec fn tun_patch_v(on: bool) -> JsonV {
    if on {
        JsonV::Object(
            seq![
                ("tun"@, JsonV::Object(seq![("enable"@, JsonV::Bool(true))])),
                ("dns"@, JsonV::Object(seq![("enable"@, JsonV::Bool(true))])),
            ],
        )
    } else {
        JsonV::Object(seq![("tun"@, JsonV::Object(seq![("enable"@, JsonV::Bool(false))]))])
    }
}

/// `{ tun: { enable: true }, dns: { enable: true } }`, or
/// `{ tun: { enable: false } }`.
pub fn tun_patch(on: bool) -> (r: Json)
    ensures
        r@ == tun_patch_v(on),
{
    if on {
        object2(
            "tun",
            object1("enable", Json::Bool(true)),
            "dns",
            object1("enable", Json::Bool(true)),
        )
    } else {
        object1("tun", object1("enable", Json::Bool(false)))
    }
}

/// What switching the connection on or off in a mode involves.
pub struct ConnectionPlan {
    /// TUN is wanted on.
    pub tun: bool,
    /// The system proxy is wanted on.
    pub sysproxy: bool,
    /// Patch for the app config (`lastConnected`, `sysProxy.enable`, and the
    /// mode when switching on).
    pub app_patch: Json,
    /// Patch for the controlled core config.
    pub core_patch: Json,
    /// The core is down and must be started (which also applies the proxy).
    pub start_core: bool,
}

pub open spec fn app_patch_v(mode: ConnectionMode, on: bool, sysproxy: bool) -> JsonV {
    let base = seq![
        ("lastConnected"@, JsonV::Bool(on)),
        ("sysProxy"@, JsonV::Object(seq![("enable"@, JsonV::Bool(sysproxy))])),
    ];
    if on {
        JsonV::Object(
            base.push(
                (
                    "connectionMode"@,
                    JsonV::Str(
                        match mode {
                            ConnectionMode::Tun => "tun"@,
                            ConnectionMode::SysProxy => "sysproxy"@,
                        },
                    ),
                ),
            ),
        )
    } else {
        JsonV::Object(base)
    }
}

/// Plans switching the connection `on` or off in `mode`.
pub fn set_connection(mode: ConnectionMode, on: bool, running: bool) -> (r: ConnectionPlan)
    ensures
        r.tun == (on && mode == ConnectionMode::Tun),
        r.sysproxy == (on && mode == ConnectionMode::SysProxy),
        r.app_patch@ == app_patch_v(mode, on, r.sysproxy),
        r.core_patch@ == tun_patch_v(r.tun),
        r.start_core == (on && !running),
{
    let tun = on && mode == ConnectionMode::Tun;
    let sysproxy = on && mode == ConnectionMode::SysProxy;
    let e = with_member(Vec::new(), "lastConnected", Json::Bool(on));
    let e = with_member(e, "sysProxy", object1("enable", Json::Bool(sysproxy)));
    let e = if on {
        with_member(e, "connectionMode", text_value(mode_name(mode)))
    } else {
        e
    };
    proof {
        assert(view_entries(Seq::<(String, Json)>::empty()) =~= Seq::<(Seq<char>, JsonV)>::empty());
    }
    let app_patch = Json::Object(e);
    proof {
        let base = seq![
            ("lastConnected"@, JsonV::Bool(on)),
            ("sysProxy"@, JsonV::Object(seq![("enable"@, JsonV::Bool(sysproxy))])),
        ];
        if on {
            assert(app_patch@->Object_0 =~= base.push(
                (
                    "connectionMode"@,
                    JsonV::Str(
                        match mode {
                            ConnectionMode::Tun => "tun"@,
                            ConnectionMode::SysProxy => "sysproxy"@,
                        },
                    ),
                ),
            ));
        } else {
            assert(app_patch@->Object_0 =~= base);
        }
    }
    ConnectionPlan { tun, sysproxy, app_patch, core_patch: tun_patch(tun), start_core: on && !running }
}

/// What choosing a connection mode does.
#[derive(Debug, Clone, Copy, PartialEq, Eq, Structural)]
pub enum ModeChoice {
    /// Already the mode in use.
    Keep,
    /// Connected: reconnect in the new mode.
    Reconnect,
    /// Disconnected: only remember the new mode.
    Remember,
}

pub fn select_connection_mode(current: ConnectionMode, wanted: ConnectionMode, is_connected: bool) -> (r: ModeChoice)
    ensures
        r == (if current == wanted {
            ModeChoice::Keep
        } else if is_connected {
            ModeChoice::Reconnect
        } else {
            ModeChoice::Remember
        }),
{
    if current == wanted {
        ModeChoice::Keep
    } else if is_connected {
        ModeChoice::Reconnect
    } else {
        ModeChoice::Remember
    }
}

/// What the autostart integration is asked to do.
#[derive(Debug, Clone, Copy, PartialEq, Eq, Structural)]
pub enum AutostartCall {
    Enable,
    Disable,
}

/// Turns launching at login on or off.
pub fn set(enabled: bool) -> (r: AutostartCall)
    ensures
        r == (if enabled {
            AutostartCall::Enable
        } else {
            AutostartCall::Disable
        }),
{
    if enabled {
        AutostartCall::Enable
    } else {
        AutostartCall::Disable
    }
}

/// Brings launching at login in line with `enabled`, given what the system
/// reports (`None` when it could not be asked): a call only when they differ.
pub fn sync(current: Option<bool>, enabled: bool) -> (r: Option<AutostartCall>)
    ensures
        r == (match current {
            Some(cur) => if cur != enabled {
                Some(
                    if enabled {
                        AutostartCall::Enable
                    } else {
                        AutostartCall::Disable
                    },
                )
            } else {
                None
            },
            None => None,
        }),
{
    match current {
        Some(cur) => if cur != enabled {
            Some(set(enabled))
        } else {
            None
        },
        None => None,
    }
}

} // verus!

verus! {

/// A warning about a subscription.
#[derive(Debug, Clone, Copy, PartialEq, Eq, Structural)]
pub enum QuotaWarning {
    /// At least 90% of the traffic quota is used.
    Quota,
    /// The subscription expires within three days.
    Expiry,
}

/// Seconds before expiry at which a subscription is flagged.
pub const EXPIRY_WARN_SECS: i64 = 259200;

pub open spec fn quota_low(p: ProfileItem) -> bool {
    p.total > 0 && p.used * 100 >= p.total * 90
}

pub open spec fn expiry_near(p: ProfileItem, now: i64) -> bool {
    p.expire > now && p.expire - now < EXPIRY_WARN_SECS
}

/// The warnings due at `now`, as (profile position, kind), in profile order
/// and, per profile, the quota warning first.
pub open spec fn quota_warnings_v(ps: Seq<ProfileItem>, now: i64) -> Seq<(int, QuotaWarning)>
    decreases ps.len(),
{
    if ps.len() == 0 {
        Seq::empty()
    } else {
        let i = ps.len() - 1;
        let rest = quota_warnings_v(ps.drop_last(), now);
        let with_quota = if quota_low(ps[i]) {
            rest.push((i, QuotaWarning::Quota))
        } else {
            rest
        };
        if expiry_near(ps[i], now) {
            with_quota.push((i, QuotaWarning::Expiry))
        } else {
            with_quota
        }
    }
}

/// Checks each profile's traffic quota and expiry against `now`.
pub fn quota_warnings(profiles: &Vec<ProfileItem>, now: i64) -> (r: Vec<(usize, QuotaWarning)>)
    ensures
        r@.map_values(|w: (usize, QuotaWarning)| (w.0 as int, w.1)) == quota_warnings_v(profiles@, now),
{
    let mut out: Vec<(usize, QuotaWarning)> = Vec::new();
    let mut i: usize = 0;
    proof {
        assert(out@.map_values(|w: (usize, QuotaWarning)| (w.0 as int, w.1)) =~= quota_warnings_v(profiles@.subrange(0, 0), now));
    }
    while i < profiles.len()
        invariant
            i <= profiles.len(),
            out@.map_values(|w: (usize, QuotaWarning)| (w.0 as int, w.1)) == quota_warnings_v(profiles@.subrange(0, i as int), now),
        decreases profiles.len() - i,
    {
        let ghost before = out@.map_values(|w: (usize, QuotaWarning)| (w.0 as int, w.1));
        let p = &profiles[i];
        proof {
            let pre = profiles@.subrange(0, i + 1);
            assert(pre.drop_last() =~= profiles@.subrange(0, i as int));
            assert(pre[i as int] == profiles@[i as int]);
        }
        let low = p.total > 0 && (p.used as u128) * 100 >= (p.total as u128) * 90;
        if low {
            out.push((i, QuotaWarning::Quota));
        }
        let ghost mid = out@.map_values(|w: (usize, QuotaWarning)| (w.0 as int, w.1));
        proof {
            if low {
                assert(mid =~= before.push((i as int, QuotaWarning::Quota)));
            } else {
                assert(mid =~= before);
            }
        }
        let near = p.expire > now && (p.expire as i128) - (now as i128) < (EXPIRY_WARN_SECS as i128);
        if near {
            out.push((i, QuotaWarning::Expiry));
            assert(out@.map_values(|w: (usize, QuotaWarning)| (w.0 as int, w.1)) =~= mid.push((i as int, QuotaWarning::Expiry)));
        }
        i += 1;
    }
    assert(profiles@.subrange(0, profiles.len() as int) =~= profiles@);
    out
}

/// Whether the profile config lists at least one profile.
pub fn has_any_profile(cfg: &Json) -> (r: bool)
    ensures
        r == (match as_array(get(cfg@, "items"@)) {
            Some(a) => a.len() > 0,
            None => false,
        }),
{
    match cfg.get("items") {
        Some(v) => match v.as_array() {
            Some(a) => {
                proof {
                    lemma_view_list_len(a@);
                }
                a.len() > 0
            },
            None => false,
        },
        None => false,
    }
}

/// Whether an unattended start may bring the core up: there is a profile,
/// and either direct mode is chosen or the service is installed.
pub fn can_autostart_core(has_profile: bool, permission_mode: &str, service_installed: bool) -> (r: bool)
    ensures
        r == (has_profile && (permission_mode@ == "direct"@ || service_installed)),
{
    if !has_profile {
        return false;
    }
    if str_eq(permission_mode, "direct") {
        return true;
    }
    service_installed
}

/// The position of the first item whose `id` is `id`.
pub open spec fn item_index(items: Seq<JsonV>, id: Seq<char>) -> int
    decreases items.len(),
{
    if items.len() == 0 {
        -1
    } else {
        let r = item_index(items.drop_last(), id);
        if r >= 0 {
            r
        } else if as_str(get(items.last(), "id"@)) == Some(id) {
            items.len() - 1
        } else {
            -1
        }
    }
}

pub proof fn lemma_item_index(items: Seq<JsonV>, id: Seq<char>)
    ensures
        -1 <= item_index(items, id) < items.len(),
        item_index(items, id) >= 0 ==> as_str(get(items[item_index(items, id)], "id"@)) == Some(id),
    decreases items.len(),
{
    if items.len() > 0 {
        lemma_item_index(items.drop_last(), id);
    }
}

/// The position of the first item whose `id` is `id`, if any.
pub fn find_item(items: &Vec<Json>, id: &str) -> (r: Option<usize>)
    ensures
        match r {
            Some(i) => i < items.len() && item_index(view_list(items@), id@) == i as int,
            None => item_index(view_list(items@), id@) == -1,
        },
{
    let ghost a = view_list(items@);
    proof {
        lemma_view_list_len(items@);
    }
    let mut i: usize = 0;
    while i < items.len()
        invariant
            i <= items.len(),
            a == view_list(items@),
            a.len() == items.len(),
            item_index(a.subrange(0, i as int), id@) == -1,
        decreases items.len() - i,
    {
        proof {
            lemma_view_list_index(items@, i as int);
            assert(a.subrange(0, i + 1).drop_last() =~= a.subrange(0, i as int));
        }
        let hit = match items[i].get("id") {
            Some(v) => match v.as_str() {
                Some(s) => str_eq(s, id),
                None => false,
            },
            None => false,
        };
        if hit {
            proof {
                assert(item_index(a.subrange(0, i + 1), id@) == i as int);
                lemma_item_index_prefix(a, id@, i as int + 1);
            }
            return Some(i);
        }
        i += 1;
    }
    assert(a.subrange(0, items.len() as int) =~= a);
    None
}

pub proof fn lemma_item_index_prefix(a: Seq<JsonV>, id: Seq<char>, k: int)
    requires
        0 <= k <= a.len(),
        item_index(a.subrange(0, k), id) >= 0,
    ensures
        item_index(a, id) == item_index(a.subrange(0, k), id),
    decreases a.len() - k,
{
    if k < a.len() {
        assert(a.subrange(0, k + 1).drop_last() =~= a.subrange(0, k));
        lemma_item_index_prefix(a, id, k + 1);
    } else {
        assert(a.subrange(0, k) =~= a);
    }
}

/// The entry of the active profile: the first item whose `id` is `current`.
pub open spec fn current_item_v(cfg: JsonV) -> Option<JsonV> {
    match as_str(get(cfg, "current"@)) {
        Some(cur) => match as_array(get(cfg, "items"@)) {
            Some(a) => if item_index(a, cur) >= 0 {
                Some(a[item_index(a, cur)])
            } else {
                None
            },
            None => None,
        },
        None => None,
    }
}

/// The entry of the active profile in `profile.yaml`.
pub fn current_profile_item(cfg: &Json) -> (r: Option<Json>)
    ensures
        match r {
            Some(x) => current_item_v(cfg@) == Some(x@),
            None => current_item_v(cfg@) is None,
        },
{
    let cur = match cfg.get("current") {
        Some(v) => match v.as_str() {
            Some(s) => s,
            None => return None,
        },
        None => return None,
    };
    let items = match cfg.get("items") {
        Some(v) => match v.as_array() {
            Some(a) => a,
            None => return None,
        },
        None => return None,
    };
    match find_item(items, cur) {
        Some(i) => {
            proof {
                lemma_view_list_index(items@, i as int);
            }
            Some(items[i].duplicate())
        },
        None => None,
    }
}

/// The display name of the active profile (its `name` text, if it has one).
pub fn current_profile_name(cfg: &Json) -> (r: Option<String>)
    ensures
        match r {
            Some(n) => current_item_v(cfg@) is Some && as_str(get(current_item_v(cfg@)->0, "name"@))
                == Some(n@),
            None => current_item_v(cfg@) is None || as_str(get(current_item_v(cfg@)->0, "name"@)) is None,
        },
{
    match current_profile_item(cfg) {
        Some(it) => match it.get("name") {
            Some(v) => match v.as_str() {
                Some(s) => Some(own(s)),
                None => None,
            },
            None => None,
        },
        None => None,
    }
}

/// Switching the connection on or off in a mode and saving the plan's app
/// patch into the app config leaves the config saying so: `lastConnected` is
/// the switch, `sysProxy.enable` holds exactly when the system proxy was
/// switched on, and the next launch brings TUN back exactly when TUN was
/// switched on. (An existing `sysProxy` that is no mapping is left alone by
/// the patch, so it is assumed absent or a mapping.)
pub proof fn law_connection_switch(cfg: JsonV, mode: ConnectionMode, on: bool)
    requires
        cfg is Object,
        match get(cfg, "sysProxy"@) {
            Some(s) => s is Object,
            None => true,
        },
    ensures
        ({
            let sp = on && mode == ConnectionMode::SysProxy;
            let c2 = merge_patch_v(cfg, app_patch_v(mode, on, sp));
            &&& cfg_flag(c2, "lastConnected"@) == on
            &&& path_flag(c2, "sysProxy.enable"@, false) == sp
            &&& (cfg_flag(c2, "lastConnected"@) && cfg_text(c2, "connectionMode"@, "tun"@) == "tun"@) == (on
                && mode == ConnectionMode::Tun)
            &&& (on ==> (as_str(get(c2, "connectionMode"@)) == Some("sysproxy"@)) == (mode == ConnectionMode::SysProxy))
        }),
{
    reveal_strlit("lastConnected");
    reveal_strlit("sysProxy");
    reveal_strlit("connectionMode");
    reveal_strlit("enable");
    reveal_strlit("tun");
    reveal_strlit("sysproxy");
    reveal_strlit("sysProxy.enable");
    let sp = on && mode == ConnectionMode::SysProxy;
    let patch = app_patch_v(mode, on, sp);
    let pe = patch->Object_0;
    assert(keys_unique(pe)) by {
        assert forall|i: int, j: int| 0 <= i < j < pe.len() implies pe[i].0 != pe[j].0 by {
            assert(pe[i].0.len() != pe[j].0.len());
        }
    }
    let c2 = merge_patch_v(cfg, patch);
    law_merge_patch_lookup(cfg, patch, "lastConnected"@);
    law_merge_patch_lookup(cfg, patch, "sysProxy"@);
    law_merge_patch_lookup(cfg, patch, "connectionMode"@);
    assert(obj_get(pe, "lastConnected"@) == Some(JsonV::Bool(on)));
    let spv = JsonV::Object(seq![("enable"@, JsonV::Bool(sp))]);
    assert(obj_get(pe, "sysProxy"@) == Some(spv)) by {
        assert(pe[0].0.len() != "sysProxy"@.len());
        assert(pe[1] == ("sysProxy"@, spv));
        crate::json::lemma_obj_index_first(pe, "sysProxy"@, 1);
        crate::json::lemma_obj_index(pe, "sysProxy"@);
    }
    // sysProxy.enable
    let cur = match get(cfg, "sysProxy"@) {
        Some(c) => c,
        None => JsonV::Object(Seq::empty()),
    };
    assert(get(c2, "sysProxy"@) == Some(merge_patch_v(cur, spv)));
    law_merge_patch_lookup(cur, spv, "enable"@);
    assert(obj_get(spv->Object_0, "enable"@) == Some(JsonV::Bool(sp)));
    assert(get(merge_patch_v(cur, spv), "enable"@) == Some(JsonV::Bool(sp)));
    assert(!"sysProxy"@.contains('.')) by {
        if "sysProxy"@.contains('.') {
            let j = choose|j: int| 0 <= j < "sysProxy"@.len() && "sysProxy"@[j] == '.';
        }
    }
    assert(!"enable"@.contains('.')) by {
        if "enable"@.contains('.') {
            let j = choose|j: int| 0 <= j < "enable"@.len() && "enable"@[j] == '.';
        }
    }
    crate::text::lemma_split_char_two("sysProxy"@, "enable"@, '.');
    assert("sysProxy"@ + seq!['.'] + "enable"@ =~= "sysProxy.enable"@);
    let segs = seq!["sysProxy"@, "enable"@];
    assert(segs.drop_last() =~= seq!["sysProxy"@]);
    assert(seq!["sysProxy"@].drop_last() =~= Seq::<Seq<char>>::empty());
    let s1 = seq!["sysProxy"@];
    assert(path_get(c2, Seq::<Seq<char>>::empty()) == Some(c2));
    assert(s1.drop_last() =~= Seq::<Seq<char>>::empty());
    assert(s1.last() == "sysProxy"@);
    assert(path_get(c2, s1) == get(c2, "sysProxy"@));
    assert(segs.last() == "enable"@);
    assert(path_get(c2, segs) == Some(JsonV::Bool(sp)));
    // connectionMode
    if on {
        assert(obj_get(pe, "connectionMode"@) == Some(
            JsonV::Str(
                match mode {
                    ConnectionMode::Tun => "tun"@,
                    ConnectionMode::SysProxy => "sysproxy"@,
                },
            ),
        )) by {
            assert(pe[0].0.len() != "connectionMode"@.len());
            assert(pe[1].0.len() != "connectionMode"@.len());
            crate::json::lemma_obj_index_first(pe, "connectionMode"@, 2);
            crate::json::lemma_obj_index(pe, "connectionMode"@);
        }
        assert("tun"@ != "sysproxy"@) by {
            assert("tun"@.len() != "sysproxy"@.len());
        }
    }
}

} // verus!
