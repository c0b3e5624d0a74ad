use vstd::prelude::*;

use crate::connection::{empty_object, object1, with_member};
use crate::json::{
    as_array, as_str, duplicate_list, find_key, get, lemma_obj_index, lemma_view_entries_index,
    lemma_view_entries_push, lemma_view_entries_update,
    lemma_view_entries_len, lemma_view_list_index, lemma_view_list_len, lemma_view_list_push,
    obj_get, obj_index, obj_insert, view_entries, view_list, Entries, Json, JsonV,
};
use crate::merge::{insert_key, overlay, overlay_v};
use crate::state::{collect_texts, text_items};
use crate::text::{
    decimal, decimal_u128,
    ascii_lower_seq, cat, contains, contains_str, own, starts_with, starts_with_str, str_eq,
    to_ascii_lowercase, in_list,
};

verus! {

/// Whether an installed core version belongs to the wanted release channel:
/// alpha builds mention `alpha`, `preview`, `pre` or `nightly` (any case).
pub open spec fn version_matches_channel_v(version: Seq<char>, want_alpha: bool) -> bool {
    let lower = ascii_lower_seq(version);
    let is_alpha = contains(lower, "alpha"@) || contains(lower, "preview"@) || contains(
        lower,
        "pre"@,
    ) || contains(lower, "nightly"@);
    if want_alpha {
        is_alpha
    } else {
        !is_alpha
    }
}

pub fn version_matches_channel(version: &str, want_alpha: bool) -> (r: bool)
    ensures
        r == version_matches_channel_v(version@, want_alpha),
{
    let lower = to_ascii_lowercase(version);
    let is_alpha = contains_str(lower.as_str(), "alpha") || contains_str(lower.as_str(), "preview")
        || contains_str(lower.as_str(), "pre") || contains_str(lower.as_str(), "nightly");
    if want_alpha {
        is_alpha
    } else {
        !is_alpha
    }
}

/// The sequence under `k`, or nothing.
pub open spec fn seq_field(j: JsonV, k: Seq<char>) -> Seq<JsonV> {
    match as_array(get(j, k)) {
        Some(a) => a,
        None => Seq::empty(),
    }
}

/// Whether a rule is named in the delete list (only text rules can be).
pub open spec fn deleted(rule: JsonV, del: Seq<Seq<char>>) -> bool {
    match rule {
        JsonV::Str(s) => del.contains(s),
        _ => false,
    }
}

/// The rules not named in `del`, in order.
pub open spec fn keep_rules(rules: Seq<JsonV>, del: Seq<Seq<char>>) -> Seq<JsonV>
    decreases rules.len(),
{
    if rules.len() == 0 {
        rules
    } else {
        let rest = keep_rules(rules.drop_last(), del);
        if deleted(rules.last(), del) {
            rest
        } else {
            rest.push(rules.last())
        }
    }
}

/// A profile's rule overrides (`prepend`, `append`, `delete`) applied to a
/// config: the `rules` become prepend, then the kept rules, then append.
/// Without any override, or for a config that is no mapping, nothing changes.
pub open spec fn rule_overrides_v(config: JsonV, ov: JsonV) -> JsonV {
    let prepend = seq_field(ov, "prepend"@);
    let append = seq_field(ov, "append"@);
    let delete = seq_field(ov, "delete"@);
    if prepend.len() == 0 && append.len() == 0 && delete.len() == 0 {
        config
    } else {
        match config {
            JsonV::Object(ce) => {
                let existing = seq_field(config, "rules"@);
                let kept = keep_rules(existing, text_items(delete));
                JsonV::Object(obj_insert(ce, "rules"@, JsonV::Array(prepend + kept + append)))
            },
            _ => config,
        }
    }
}

/// A copy of the sequence under `key` (empty when absent or no sequence).
fn seq_copy(j: &Json, key: &str) -> (r: Vec<Json>)
    ensures
        view_list(r@) == seq_field(j@, key@),
{
    match j.get(key) {
        Some(v) => match v.as_array() {
            Some(a) => duplicate_list(a),
            None => {
                let v: Vec<Json> = Vec::new();
                assert(view_list(v@) =~= Seq::<JsonV>::empty());
                v
            },
        },
        None => {
            let v: Vec<Json> = Vec::new();
            assert(view_list(v@) =~= Seq::<JsonV>::empty());
            v
        },
    }
}

/// `a` followed by a copy of `b`.
fn append_all(a: Vec<Json>, b: &Vec<Json>) -> (r: Vec<Json>)
    ensures
        view_list(r@) == view_list(a@) + view_list(b@),
{
    let ghost av = view_list(a@);
    let ghost bv = view_list(b@);
    proof {
        lemma_view_list_len(b@);
        assert(av + bv.subrange(0, 0) =~= av);
    }
    let mut out = a;
    let mut i: usize = 0;
    while i < b.len()
        invariant
            i <= b.len(),
            bv == view_list(b@),
            bv.len() == b.len(),
            view_list(out@) == av + bv.subrange(0, i as int),
        decreases b.len() - i,
    {
        proof {
            lemma_view_list_index(b@, i as int);
        }
        let x = b[i].duplicate();
        proof {
            lemma_view_list_push(out@, x);
            assert(av + bv.subrange(0, i + 1) =~= (av + bv.subrange(0, i as int)).push(x@));
        }
        out.push(x);
        i += 1;
    }
    assert(bv.subrange(0, b.len() as int) =~= bv);
    out
}

/// The rules of `rules` that `del` does not name, in order.
fn keep_rule_list(rules: &Vec<Json>, del: &Vec<String>) -> (r: Vec<Json>)
    ensures
        view_list(r@) == keep_rules(view_list(rules@), del@.map_values(|p: String| p@)),
{
    let ghost rv = view_list(rules@);
    let ghost dv = del@.map_values(|p: String| p@);
    proof {
        lemma_view_list_len(rules@);
        assert(view_list(Seq::<Json>::empty()) =~= Seq::<JsonV>::empty());
        assert(rv.subrange(0, 0) =~= Seq::<JsonV>::empty());
    }
    let mut out: Vec<Json> = Vec::new();
    let mut i: usize = 0;
    while i < rules.len()
        invariant
            i <= rules.len(),
            rv == view_list(rules@),
            rv.len() == rules.len(),
            dv == del@.map_values(|p: String| p@),
            view_list(out@) == keep_rules(rv.subrange(0, i as int), dv),
        decreases rules.len() - i,
    {
        proof {
            lemma_view_list_index(rules@, i as int);
            assert(rv.subrange(0, i + 1).drop_last() =~= rv.subrange(0, i as int));
        }
        let drop = match rules[i].as_str() {
            Some(s) => in_list(del, s),
            None => false,
        };
        if !drop {
            let x = rules[i].duplicate();
            proof {
                lemma_view_list_push(out@, x);
            }
            out.push(x);
        }
        i += 1;
    }
    assert(rv.subrange(0, rules.len() as int) =~= rv);
    out
}

/// A profile's rule overrides applied to a config (see [`rule_overrides_v`]).
pub fn apply_rule_overrides(config: Json, overrides: &Json) -> (r: Json)
    ensures
        r@ == rule_overrides_v(config@, overrides@),
{
    let prepend = seq_copy(overrides, "prepend");
    let append = seq_copy(overrides, "append");
    let delete = seq_copy(overrides, "delete");
    proof {
        lemma_view_list_len(prepend@);
        lemma_view_list_len(append@);
        lemma_view_list_len(delete@);
    }
    if prepend.len() == 0 && append.len() == 0 && delete.len() == 0 {
        return config;
    }
    let existing = seq_copy(&config, "rules");
    let del = collect_texts(&delete);
    let kept = keep_rule_list(&existing, &del);
    let rules = append_all(append_all(prepend, &kept), &append);
    match config {
        Json::Object(ce) => {
            let e = insert_key(ce, own("rules"), Json::Array(rules));
            Json::Object(e)
        },
        other => other,
    }
}

/// Whether the profile has a non-empty mapping under `section`.
pub open spec fn profile_has_section(profile: JsonV, section: Seq<char>) -> bool {
    match get(profile, section) {
        Some(JsonV::Object(m)) => m.len() > 0,
        _ => false,
    }
}

/// The entries without the first one named `k`, the last entry taking its
/// place (a mapping's swap removal).
pub open spec fn swap_remove_key(e: Entries, k: Seq<char>) -> Entries {
    let i = obj_index(e, k);
    if i < 0 {
        e
    } else {
        e.update(i, e.last()).drop_last()
    }
}

/// The app's override for one section layered under a profile's own: with
/// `force` the overrides stay; else, when the profile has a non-empty mapping
/// there, the override section is dropped, and for `tun` only its `enable`
/// survives (re-added at the end).
pub open spec fn section_policy_v(profile: JsonV, ov: JsonV, section: Seq<char>, force: bool) -> JsonV {
    if force || !profile_has_section(profile, section) {
        ov
    } else {
        match ov {
            JsonV::Object(e) => {
                let kept = if section == "tun"@ {
                    match obj_get(e, section) {
                        Some(t) => get(t, "enable"@),
                        None => None,
                    }
                } else {
                    None
                };
                let removed = swap_remove_key(e, section);
                match kept {
                    Some(en) => JsonV::Object(
                        removed.push((section, JsonV::Object(seq![("enable"@, en)]))),
                    ),
                    None => JsonV::Object(removed),
                }
            },
            _ => ov,
        }
    }
}

fn has_nonempty_section(profile: &Json, section: &str) -> (r: bool)
    ensures
        r == profile_has_section(profile@, section@),
{
    match profile.get(section) {
        Some(Json::Object(m)) => {
            proof {
                lemma_view_entries_len(m@);
            }
            m.len() > 0
        },
        _ => false,
    }
}

/// `e` without its first entry named `key`, the last entry moved into its place.
fn swap_remove(e: Vec<(String, Json)>, key: &str) -> (r: Vec<(String, Json)>)
    ensures
        view_entries(r@) == swap_remove_key(view_entries(e@), key@),
{
    let mut e = e;
    let i = find_key(&e, key);
    proof {
        lemma_view_entries_len(e@);
    }
    if i < e.len() {
        let ghost e0 = e@;
        let last = e.pop().unwrap();
        proof {
            assert(e0 =~= e@.push(last));
            lemma_view_entries_push(e@, last);
            lemma_view_entries_len(e@);
        }
        if i < e.len() {
            proof {
                lemma_view_entries_update(e@, i as int, last);
                assert(view_entries(e@.update(i as int, last)) =~= view_entries(e0).update(
                    i as int,
                    view_entries(e0).last(),
                ).drop_last());
            }
            e.set(i, last);
        } else {
            assert(view_entries(e@) =~= view_entries(e0).update(i as int, view_entries(e0).last()).drop_last());
        }
        e
    } else {
        e
    }
}

/// Layers the app's override for `section` under the profile (see
/// [`section_policy_v`]).
pub fn apply_section_policy(profile: &Json, overrides: Json, section: &str, force: bool) -> (r: Json)
    ensures
        r@ == section_policy_v(profile@, overrides@, section@, force),
{
    if force {
        return overrides;
    }
    if !has_nonempty_section(profile, section) {
        return overrides;
    }
    match overrides {
        Json::Object(e) => {
            let is_tun = str_eq(section, "tun");
            let i = find_key(&e, section);
            proof {
                lemma_view_entries_len(e@);
                lemma_obj_index(view_entries(e@), section@);
                if i < e.len() {
                    lemma_view_entries_index(e@, i as int);
                }
            }
            let kept: Option<Json> = if is_tun && i < e.len() {
                match e[i].1.get("enable") {
                    Some(v) => Some(v.duplicate()),
                    None => None,
                }
            } else {
                None
            };
            let removed = swap_remove(e, section);
            match kept {
                Some(en) => Json::Object(with_member(removed, section, object1("enable", en))),
                None => Json::Object(removed),
            }
        },
        other => other,
    }
}

/// The controller address the config already names (a non-empty text).
pub open spec fn existing_controller(config: JsonV) -> Option<Seq<char>> {
    match as_str(get(config, "external-controller"@)) {
        Some(a) => if a.len() > 0 {
            Some(a)
        } else {
            None
        },
        None => None,
    }
}

/// `127.0.0.1:<port>`.
pub open spec fn local_controller_addr(port: u16) -> Seq<char> {
    "127.0.0.1:"@ + decimal(port as nat)
}

/// The controller address in effect: the config's own, else the local one.
pub open spec fn controller_addr_v(config: JsonV, port: u16) -> Seq<char> {
    match existing_controller(config) {
        Some(a) => a,
        None => local_controller_addr(port),
    }
}

/// The REST base URL for a controller address: kept when it already names a
/// scheme, a bare `:port` gets the loopback host, anything else `http://`.
pub open spec fn controller_url_of(addr: Seq<char>) -> Seq<char> {
    if starts_with(addr, "http"@) {
        addr
    } else if starts_with(addr, seq![':']) {
        "http://127.0.0.1"@ + addr
    } else {
        "http://"@ + addr
    }
}

/// The config with an `external-controller` entry: unchanged when it names
/// one, else the local address is set (on a mapping).
pub open spec fn with_controller_v(config: JsonV, port: u16) -> JsonV {
    match existing_controller(config) {
        Some(_) => config,
        None => match config {
            JsonV::Object(e) => JsonV::Object(
                obj_insert(e, "external-controller"@, JsonV::Str(local_controller_addr(port))),
            ),
            _ => config,
        },
    }
}

/// The controller URL for an address.
pub fn controller_url_for(addr: &str) -> (r: String)
    ensures
        r@ == controller_url_of(addr@),
{
    proof {
        reveal_strlit("http");
        reveal_strlit(":");
        reveal_strlit("http://127.0.0.1");
        reveal_strlit("http://");
    }
    if starts_with_str(addr, "http") {
        own(addr)
    } else if starts_with_str(addr, ":") {
        assert(":"@ =~= seq![':']);
        cat("http://127.0.0.1", addr)
    } else {
        assert(":"@ =~= seq![':']);
        cat("http://", addr)
    }
}

/// Makes sure the config names an external controller (the local address on
/// `port` when it names none) and returns it with the controller's URL.
pub fn ensure_external_controller(config: Json, port: u16) -> (r: (Json, String))
    ensures
        r.0@ == with_controller_v(config@, port),
        r.1@ == controller_url_of(controller_addr_v(config@, port)),
{
    let existing: Option<String> = match config.get("external-controller") {
        Some(v) => match v.as_str() {
            Some(a) => if !a.is_empty() {
                Some(own(a))
            } else {
                None
            },
            None => None,
        },
        None => None,
    };
    match existing {
        Some(a) => {
            let url = controller_url_for(a.as_str());
            (config, url)
        },
        None => {
            let addr = cat("127.0.0.1:", decimal_u128(port as u128).as_str());
            proof {
                reveal_strlit("127.0.0.1:");
            }
            let url = controller_url_for(addr.as_str());
            match config {
                Json::Object(e) => {
                    let e2 = insert_key(e, own("external-controller"), Json::Str(addr));
                    (Json::Object(e2), url)
                },
                other => (other, url),
            }
        },
    }
}

/// The runtime config the core runs with, and its controller URL: the app's
/// overrides (after the section policies for `dns`, `sniffer`, `tun`) layered
/// onto the profile, the profile's rule overrides applied, and a controller
/// address ensured. A missing profile stands as `null` for the policies and as
/// an empty mapping for the layering.
pub open spec fn runtime_config_v(
    profile: Option<JsonV>,
    overrides: JsonV,
    control_dns: bool,
    control_sniff: bool,
    control_tun: bool,
    rules: Option<JsonV>,
    port: u16,
) -> (JsonV, Seq<char>) {
    let pv = match profile {
        Some(p) => p,
        None => JsonV::Null,
    };
    let eff = section_policy_v(
        pv,
        section_policy_v(pv, section_policy_v(pv, overrides, "dns"@, control_dns), "sniffer"@, control_sniff),
        "tun"@,
        control_tun,
    );
    let base = match profile {
        Some(p) => p,
        None => JsonV::Object(Seq::empty()),
    };
    let merged = overlay_v(base, eff);
    let ruled = match rules {
        Some(r) => rule_overrides_v(merged, r),
        None => merged,
    };
    (with_controller_v(ruled, port), controller_url_of(controller_addr_v(ruled, port)))
}

/// Builds the runtime config (see [`runtime_config_v`]).
pub fn rebuild_runtime_config(
    profile: Option<Json>,
    overrides: Json,
    control_dns: bool,
    control_sniff: bool,
    control_tun: bool,
    rules: Option<Json>,
    port: u16,
) -> (r: (Json, String))
    ensures
        (r.0@, r.1@) == runtime_config_v(
            match profile {
                Some(p) => Some(p@),
                None => None,
            },
            overrides@,
            control_dns,
            control_sniff,
            control_tun,
            match rules {
                Some(x) => Some(x@),
                None => None,
            },
            port,
        ),
{
    let pv = match &profile {
        Some(p) => p.duplicate(),
        None => Json::Null,
    };
    let eff = apply_section_policy(&pv, overrides, "dns", control_dns);
    let eff = apply_section_policy(&pv, eff, "sniffer", control_sniff);
    let eff = apply_section_policy(&pv, eff, "tun", control_tun);
    let base = match profile {
        Some(p) => p,
        None => empty_object(),
    };
    let merged = overlay(base, &eff);
    let ruled = match &rules {
        Some(x) => apply_rule_overrides(merged, x),
        None => merged,
    };
    ensure_external_controller(ruled, port)
}

/// An installed core: its version text and whether its binary is present.
pub struct InstalledCore {
    pub version: String,
    pub has_binary: bool,
}

pub open spec fn installed_view(v: Seq<InstalledCore>) -> Seq<(Seq<char>, bool)> {
    v.map_values(|c: InstalledCore| (c.version@, c.has_binary))
}

/// Walking the installed cores in order, those of the wanted channel: the
/// broken ones met before the first usable one (to be removed), and that
/// usable one.
pub open spec fn install_scan(inst: Seq<(Seq<char>, bool)>, want_alpha: bool) -> (Seq<int>, Option<int>)
    decreases inst.len(),
{
    if inst.len() == 0 {
        (Seq::empty(), None)
    } else {
        let prev = install_scan(inst.drop_last(), want_alpha);
        let k = inst.len() - 1;
        if prev.1 is Some || !version_matches_channel_v(inst.last().0, want_alpha) {
            prev
        } else if inst.last().1 {
            (prev.0, Some(k))
        } else {
            (prev.0.push(k), None)
        }
    }
}

/// What to do to make a core of the wanted kind the default.
pub struct CoreInstallPlan {
    /// Nothing at all (the system's own core is used).
    pub skip: bool,
    /// Broken installs of the channel to remove, by position.
    pub remove: Vec<usize>,
    /// The install to make the default; with none, a fresh install is due.
    pub use_installed: Option<usize>,
    /// Whether the nightly channel is wanted.
    pub want_alpha: bool,
}

/// Plans how the core of kind `core` (`system`, `mihomo` or `mihomo-alpha`)
/// becomes the default from the installed cores.
pub fn plan_core_install(core: &str, installed: &Vec<InstalledCore>) -> (r: CoreInstallPlan)
    ensures
        r.skip == (core@ == "system"@),
        r.want_alpha == (core@ == "mihomo-alpha"@),
        !r.skip ==> r.remove@.map_values(|i: usize| i as int) == install_scan(
            installed_view(installed@),
            r.want_alpha,
        ).0,
        !r.skip ==> match r.use_installed {
            Some(i) => install_scan(installed_view(installed@), r.want_alpha).1 == Some(i as int),
            None => install_scan(installed_view(installed@), r.want_alpha).1 is None,
        },
        r.skip ==> r.remove@.len() == 0 && r.use_installed is None,
{
    let want_alpha = str_eq(core, "mihomo-alpha");
    if str_eq(core, "system") {
        return CoreInstallPlan { skip: true, remove: Vec::new(), use_installed: None, want_alpha };
    }
    let ghost iv = installed_view(installed@);
    let mut remove: Vec<usize> = Vec::new();
    let mut pick: Option<usize> = None;
    let mut i: usize = 0;
    assert(iv.subrange(0, 0) =~= Seq::<(Seq<char>, bool)>::empty());
    assert(remove@.map_values(|i: usize| i as int) =~= Seq::<int>::empty());
    while i < installed.len()
        invariant
            i <= installed.len(),
            iv == installed_view(installed@),
            iv.len() == installed.len(),
            remove@.map_values(|i: usize| i as int) == install_scan(iv.subrange(0, i as int), want_alpha).0,
            match pick {
                Some(k) => install_scan(iv.subrange(0, i as int), want_alpha).1 == Some(k as int),
                None => install_scan(iv.subrange(0, i as int), want_alpha).1 is None,
            },
        decreases installed.len() - i,
    {
        let ghost before = remove@;
        assert(iv.subrange(0, i + 1).drop_last() =~= iv.subrange(0, i as int));
        assert(iv[i as int] == (installed@[i as int].version@, installed@[i as int].has_binary));
        if pick.is_none() && version_matches_channel(installed[i].version.as_str(), want_alpha) {
            if installed[i].has_binary {
                pick = Some(i);
            } else {
                remove.push(i);
                assert(remove@.map_values(|i: usize| i as int) =~= before.map_values(
                    |i: usize| i as int,
                ).push(i as int));
            }
        }
        i += 1;
    }
    assert(iv.subrange(0, installed.len() as int) =~= iv);
    CoreInstallPlan { skip: false, remove, use_installed: pick, want_alpha }
}

/// The core binary's file name on the platform.
pub fn core_binary_name(windows: bool) -> (r: &'static str)
    ensures
        r@ == (if windows {
            "mihomo.exe"@
        } else {
            "mihomo"@
        }),
{
    if windows {
        "mihomo.exe"
    } else {
        "mihomo"
    }
}

/// `s` with every backslash written as a slash.
pub open spec fn forward_slashes(s: Seq<char>) -> Seq<char> {
    s.map_values(|c: char| if c == '\\' { '/' } else { c })
}

/// The request that makes the running core reload its config from
/// `config_path`: the URL to `PUT` and its body `{path}` (slashes forward).
pub fn reload_request(controller: &str, config_path: &str) -> (r: (String, Json))
    ensures
        r.0@ == controller@ + "/configs?force=false"@,
        r.1@ == JsonV::Object(seq![("path"@, JsonV::Str(forward_slashes(config_path@)))]),
{
    let cs = crate::text::to_chars(config_path);
    let mut out: Vec<char> = Vec::new();
    let mut i: usize = 0;
    while i < cs.len()
        invariant
            i <= cs.len(),
            cs@ == config_path@,
            out@ == forward_slashes(config_path@).subrange(0, i as int),
        decreases cs.len() - i,
    {
        out.push(if cs[i] == '\\' { '/' } else { cs[i] });
        assert(out@ =~= forward_slashes(config_path@).subrange(0, i + 1));
        i += 1;
    }
    assert(forward_slashes(config_path@).subrange(0, cs.len() as int) =~= forward_slashes(config_path@));
    let path = crate::text::from_chars(out.as_slice());
    (cat(controller, "/configs?force=false"), object1("path", Json::Str(path)))
}

/// Where config patches go on the running core.
pub fn configs_url(controller: &str) -> (r: String)
    ensures
        r@ == controller@ + "/configs"@,
{
    cat(controller, "/configs")
}

/// Making sure of the controller twice changes nothing more than once: the
/// config and the URL stay as the first call left them.
pub proof fn law_external_controller_idempotent(config: JsonV, port: u16)
    ensures
        with_controller_v(with_controller_v(config, port), port) == with_controller_v(config, port),
        controller_addr_v(with_controller_v(config, port), port) == controller_addr_v(config, port),
{
    reveal_strlit("127.0.0.1:");
    if existing_controller(config) is None {
        match config {
            JsonV::Object(e) => {
                let a = local_controller_addr(port);
                crate::merge::lemma_obj_get_insert(e, "external-controller"@, JsonV::Str(a), "external-controller"@);
                assert(a.len() > 0);
                assert(existing_controller(with_controller_v(config, port)) == Some(a));
            },
            _ => {},
        }
    }
}

/// No rule the delete list names survives among the kept rules, and every
/// kept rule was among the existing ones.
pub proof fn law_deleted_rules_gone(rules: Seq<JsonV>, del: Seq<Seq<char>>)
    ensures
        forall|j: int| 0 <= j < keep_rules(rules, del).len() ==> !deleted(#[trigger] keep_rules(rules, del)[j], del),
        forall|j: int| 0 <= j < keep_rules(rules, del).len() ==> rules.contains(#[trigger] keep_rules(rules, del)[j]),
    decreases rules.len(),
{
    if rules.len() > 0 {
        law_deleted_rules_gone(rules.drop_last(), del);
        let rest = keep_rules(rules.drop_last(), del);
        assert forall|j: int| 0 <= j < keep_rules(rules, del).len() implies rules.contains(
            #[trigger] keep_rules(rules, del)[j],
        ) by {
            if j < rest.len() {
                let x = rest[j];
                assert(rules.drop_last().contains(x));
                let k = choose|k: int| 0 <= k < rules.drop_last().len() && rules.drop_last()[k] == x;
                assert(rules[k] == x);
            } else {
                assert(rules[rules.len() - 1] == rules.last());
            }
        }
    }
}

/// A text names an entry of the delete list exactly when the list holds that
/// text.
proof fn lemma_text_items_contains(d: Seq<JsonV>, s: Seq<char>)
    ensures
        text_items(d).contains(s) <==> d.contains(JsonV::Str(s)),
    decreases d.len(),
{
    if d.len() > 0 {
        let rest = d.drop_last();
        lemma_text_items_contains(rest, s);
        if d.contains(JsonV::Str(s)) {
            let k = choose|k: int| 0 <= k < d.len() && d[k] == JsonV::Str(s);
            if k < d.len() - 1 {
                assert(rest[k] == JsonV::Str(s));
            } else {
                assert(text_items(d).last() == s);
            }
        }
        if text_items(rest).contains(s) {
            let k = choose|k: int| 0 <= k < text_items(rest).len() && text_items(rest)[k] == s;
            assert(text_items(d)[k] == s);
        }
        if rest.contains(JsonV::Str(s)) {
            let k = choose|k: int| 0 <= k < rest.len() && rest[k] == JsonV::Str(s);
            assert(d[k] == JsonV::Str(s));
        }
    }
}

/// The kept rules are the existing ones without the text rules the delete
/// list holds.
proof fn lemma_keep_rules_filter(rules: Seq<JsonV>, d: Seq<JsonV>)
    ensures
        keep_rules(rules, text_items(d)) == rules.filter(|x: JsonV| !(x is Str && d.contains(x))),
    decreases rules.len(),
{
    reveal(Seq::filter);
    if rules.len() > 0 {
        lemma_keep_rules_filter(rules.drop_last(), d);
        let x = rules.last();
        match x {
            JsonV::Str(t) => lemma_text_items_contains(d, t),
            _ => {},
        }
    }
}

/// Law: a profile's rule overrides make a mapping config's `rules` the
/// prepended rules, then the existing rules without every text rule the
/// delete list holds (the others kept in their order), then the appended
/// rules, as soon as any of the three lists has an entry (a delete list
/// alone is enough); every other key keeps its value. Only when all three
/// lists are empty, or the config is no mapping, does the config come back
/// as it was.
pub proof fn law_rule_overrides(config: JsonV, ov: JsonV, k: Seq<char>)
    ensures
        ({
            let prepend = seq_field(ov, "prepend"@);
            let append = seq_field(ov, "append"@);
            let delete = seq_field(ov, "delete"@);
            let result = rule_overrides_v(config, ov);
            &&& (config is Object && (prepend.len() > 0 || append.len() > 0 || delete.len() > 0)) ==> get(
                result,
                "rules"@,
            ) == Some(
                JsonV::Array(
                    prepend + seq_field(config, "rules"@).filter(|x: JsonV| !(x is Str && delete.contains(x)))
                        + append,
                ),
            )
            &&& (config is Object && k != "rules"@) ==> get(result, k) == get(config, k)
            &&& (!(config is Object) || (prepend.len() == 0 && append.len() == 0 && delete.len() == 0))
                ==> result == config
        }),
{
    let prepend = seq_field(ov, "prepend"@);
    let append = seq_field(ov, "append"@);
    let delete = seq_field(ov, "delete"@);
    if config is Object && (prepend.len() > 0 || append.len() > 0 || delete.len() > 0) {
        let ce = config->Object_0;
        let existing = seq_field(config, "rules"@);
        let kept = keep_rules(existing, text_items(delete));
        lemma_keep_rules_filter(existing, delete);
        crate::merge::lemma_obj_get_insert(ce, "rules"@, JsonV::Array(prepend + kept + append), "rules"@);
        crate::merge::lemma_obj_get_insert(ce, "rules"@, JsonV::Array(prepend + kept + append), k);
    }
}

/// The TUN switch of a config: `tun.enable`, when set.
pub open spec fn tun_enable(j: JsonV) -> Option<JsonV> {
    match get(j, "tun"@) {
        Some(t) => get(t, "enable"@),
        None => None,
    }
}

/// The app's TUN switch always survives layering its overrides under a
/// profile, whether the profile's own `tun` section wins or not (for
/// overrides that, as a mapping read from YAML, name each key once).
pub proof fn law_tun_enable_kept(profile: JsonV, ov: JsonV, force: bool)
    requires
        ov is Object ==> crate::json::keys_unique(ov->Object_0),
    ensures
        tun_enable(section_policy_v(profile, ov, "tun"@, force)) == tun_enable(ov),
{
    if !force && profile_has_section(profile, "tun"@) {
        match ov {
            JsonV::Object(e) => {
                let k = "tun"@;
                let i = obj_index(e, k);
                lemma_obj_index(e, k);
                let removed = swap_remove_key(e, k);
                assert forall|j: int| 0 <= j < removed.len() implies removed[j].0 != k by {
                    if i >= 0 {
                        if j == i {
                            assert(removed[j] == e.last());
                            assert(e.last() == e[e.len() - 1]);
                        } else {
                            assert(removed[j] == e[j]);
                        }
                    }
                }
                crate::json::lemma_obj_index_none(removed, k);
                match obj_get(e, k) {
                    Some(t) => match get(t, "enable"@) {
                        Some(en) => {
                            let x = (k, JsonV::Object(seq![("enable"@, en)]));
                            crate::merge::lemma_obj_get_push(removed, x, k);
                            let inner = seq![("enable"@, en)];
                            assert(inner.subrange(1, 1) =~= Seq::<(Seq<char>, JsonV)>::empty());
                            assert(obj_get(inner, "enable"@) == Some(en));
                        },
                        None => {},
                    },
                    None => {},
                }
            },
            _ => {},
        }
    }
}

/// In a mapping that names each key once, a key's value is the one at the
/// entry carrying it.
proof fn lemma_obj_get_unique(e: Entries, k: Seq<char>, m: int)
    requires
        crate::json::keys_unique(e),
        0 <= m < e.len(),
        e[m].0 == k,
    ensures
        obj_get(e, k) == Some(e[m].1),
{
    crate::json::lemma_obj_index_first(e, k, m);
    lemma_obj_index(e, k);
}

/// Swap-removing one key leaves every other key's value as it was (for a
/// mapping that names each key once).
proof fn lemma_swap_remove_other(e: Entries, s: Seq<char>, k: Seq<char>)
    requires
        crate::json::keys_unique(e),
        k != s,
    ensures
        obj_get(swap_remove_key(e, s), k) == obj_get(e, k),
{
    let i = obj_index(e, s);
    lemma_obj_index(e, s);
    lemma_obj_index(e, k);
    let r = swap_remove_key(e, s);
    if i >= 0 {
        let n = e.len() - 1;
        assert(r.len() == n);
        assert forall|j: int| 0 <= j < r.len() implies #[trigger] r[j] == (if j == i { e[n] } else { e[j] }) by {}
        assert(crate::json::keys_unique(r)) by {
            assert forall|a: int, b: int| 0 <= a < b < r.len() implies r[a].0 != r[b].0 by {
                let ea = if a == i { n } else { a };
                let eb = if b == i { n } else { b };
                assert(r[a] == e[ea] && r[b] == e[eb]);
                assert(ea != eb);
                if ea < eb {
                } else {
                }
            }
        }
        let m = obj_index(e, k);
        if m >= 0 {
            assert(m != i);
            let mr = if m == n { i } else { m };
            assert(r[mr] == e[m]);
            lemma_obj_get_unique(r, k, mr);
        } else {
            assert forall|j: int| 0 <= j < r.len() implies r[j].0 != k by {
                let ej = if j == i { n } else { j };
                assert(r[j] == e[ej]);
            }
            crate::json::lemma_obj_index_none(r, k);
        }
    }
}

/// Law: the app's override for a section stays as it is when forced or when
/// the profile has no (non-empty) section of its own; else the override's
/// section gives way to the profile's — dropped outright, except that for
/// `tun` just the `enable` switch is kept — and every other key of the
/// overrides keeps its value (for overrides that, as a mapping read from
/// YAML, name each key once).
pub proof fn law_section_policy(profile: JsonV, ov: JsonV, section: Seq<char>, force: bool, k: Seq<char>)
    requires
        ov is Object ==> crate::json::keys_unique(ov->Object_0),
    ensures
        (force || !profile_has_section(profile, section)) ==> section_policy_v(profile, ov, section, force) == ov,
        (!force && profile_has_section(profile, section) && ov is Object && section != "tun"@) ==> get(
            section_policy_v(profile, ov, section, force),
            section,
        ) is None,
        (!force && profile_has_section(profile, section) && ov is Object && section == "tun"@) ==> get(
            section_policy_v(profile, ov, section, force),
            section,
        ) == (match get(get(ov, section)->0, "enable"@) {
            Some(en) => if get(ov, section) is Some {
                Some(JsonV::Object(seq![("enable"@, en)]))
            } else {
                None
            },
            None => None,
        }),
        (!force && profile_has_section(profile, section) && ov is Object && k != section) ==> get(
            section_policy_v(profile, ov, section, force),
            k,
        ) == get(ov, k),
{
    if !force && profile_has_section(profile, section) {
        match ov {
            JsonV::Object(e) => {
                let i = obj_index(e, section);
                lemma_obj_index(e, section);
                let removed = swap_remove_key(e, section);
                assert forall|j: int| 0 <= j < removed.len() implies removed[j].0 != section by {
                    if i >= 0 {
                        if j == i {
                            assert(removed[j] == e.last());
                            assert(e.last() == e[e.len() - 1]);
                        } else {
                            assert(removed[j] == e[j]);
                        }
                    }
                }
                crate::json::lemma_obj_index_none(removed, section);
                if k != section {
                    lemma_swap_remove_other(e, section, k);
                }
                if section == "tun"@ {
                    match obj_get(e, section) {
                        Some(t) => match get(t, "enable"@) {
                            Some(en) => {
                                let x = (section, JsonV::Object(seq![("enable"@, en)]));
                                crate::merge::lemma_obj_get_push(removed, x, section);
                                crate::merge::lemma_obj_get_push(removed, x, k);
                            },
                            None => {},
                        },
                        None => {},
                    }
                }
            },
            _ => {},
        }
    }
}

/// An installed core belongs to exactly one release channel.
pub proof fn law_channel_partition(version: Seq<char>)
    ensures
        version_matches_channel_v(version, true) != version_matches_channel_v(version, false),
{
}

} // verus!
