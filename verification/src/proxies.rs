use vstd::prelude::*;

use crate::connection::{cfg_text, object1, text_value};
use crate::json::{
    as_array, as_bool, as_str, as_u64, find_key, get, lemma_obj_index, lemma_view_entries_index,
    lemma_view_entries_len, lemma_view_list_index, lemma_view_list_len, lemma_view_list_push,
    obj_get, obj_index, obj_insert, view_entries, view_list, Entries, Json, JsonV,
};
use crate::merge::insert_key;
use crate::text::{cat, own, str_eq, to_chars};

verus! {

/// Whether `a` sorts before `b` the way `str::cmp` orders text (by code
/// point, a prefix first).
pub open spec fn text_lt(a: Seq<char>, b: Seq<char>) -> bool
    decreases a.len(),
{
    if a.len() == 0 {
        b.len() > 0
    } else if b.len() == 0 {
        false
    } else if a[0] != b[0] {
        (a[0] as u32) < (b[0] as u32)
    } else {
        text_lt(a.drop_first(), b.drop_first())
    }
}

/// Whether `a` sorts before `b`.
pub fn text_less(a: &str, b: &str) -> (r: bool)
    ensures
        r == text_lt(a@, b@),
{
    let x = to_chars(a);
    let y = to_chars(b);
    let mut i: usize = 0;
    assert(a@.subrange(0, a@.len() as int) =~= a@);
    assert(b@.subrange(0, b@.len() as int) =~= b@);
    while i < x.len() && i < y.len() && x[i] == y[i]
        invariant
            i <= x.len(),
            i <= y.len(),
            x@ == a@,
            y@ == b@,
            text_lt(a@, b@) == text_lt(a@.subrange(i as int, a@.len() as int), b@.subrange(i as int, b@.len() as int)),
        decreases x.len() - i,
    {
        assert(a@.subrange(i as int, a@.len() as int).drop_first() =~= a@.subrange(i + 1, a@.len() as int));
        assert(b@.subrange(i as int, b@.len() as int).drop_first() =~= b@.subrange(i + 1, b@.len() as int));
        i += 1;
    }
    if i == x.len() {
        i < y.len()
    } else if i == y.len() {
        false
    } else {
        (x[i] as u32) < (y[i] as u32)
    }
}

/// A group's name for ordering (empty when it has none).
pub open spec fn name_key(g: JsonV) -> Seq<char> {
    match as_str(get(g, "name"@)) {
        Some(n) => n,
        None => Seq::empty(),
    }
}

/// Where a group named `k` goes in a list sorted by name: after every group
/// whose name does not sort after `k`.
pub open spec fn name_insert_pos(s: Seq<JsonV>, k: Seq<char>) -> nat
    decreases s.len(),
{
    if s.len() == 0 {
        0
    } else if text_lt(k, name_key(s[0])) {
        0
    } else {
        1 + name_insert_pos(s.drop_first(), k)
    }
}

/// `s` sorted by name, stably.
pub open spec fn sort_by_name(s: Seq<JsonV>) -> Seq<JsonV>
    decreases s.len(),
{
    if s.len() == 0 {
        s
    } else {
        let r = sort_by_name(s.drop_last());
        r.insert(name_insert_pos(r, name_key(s.last())) as int, s.last())
    }
}

pub proof fn lemma_name_insert_pos(s: Seq<JsonV>, k: Seq<char>, p: int)
    requires
        0 <= p <= s.len(),
        forall|j: int| 0 <= j < p ==> !text_lt(k, name_key(#[trigger] s[j])),
        p < s.len() ==> text_lt(k, name_key(s[p])),
    ensures
        name_insert_pos(s, k) == p,
    decreases s.len(),
{
    if s.len() > 0 && p > 0 {
        assert(!text_lt(k, name_key(s[0])));
        let t = s.drop_first();
        assert forall|j: int| 0 <= j < p - 1 implies !text_lt(k, name_key(#[trigger] t[j])) by {
            assert(t[j] == s[j + 1]);
        }
        if p - 1 < t.len() {
            assert(t[p - 1] == s[p]);
        }
        lemma_name_insert_pos(t, k, p - 1);
    }
}

pub proof fn lemma_name_insert_pos_bound(s: Seq<JsonV>, k: Seq<char>)
    ensures
        name_insert_pos(s, k) <= s.len(),
    decreases s.len(),
{
    if s.len() > 0 {
        lemma_name_insert_pos_bound(s.drop_first(), k);
    }
}

pub proof fn lemma_sort_by_name_len(s: Seq<JsonV>)
    ensures
        sort_by_name(s).len() == s.len(),
    decreases s.len(),
{
    if s.len() > 0 {
        lemma_sort_by_name_len(s.drop_last());
        let r = sort_by_name(s.drop_last());
        lemma_name_insert_pos_bound(r, name_key(s.last()));
    }
}

pub proof fn lemma_view_list_insert(s: Seq<Json>, i: int, x: Json)
    requires
        0 <= i <= s.len(),
    ensures
        view_list(s.insert(i, x)) == view_list(s).insert(i, x@),
{
    let t = s.insert(i, x);
    lemma_view_list_len(s);
    lemma_view_list_len(t);
    assert forall|j: int| 0 <= j < t.len() implies view_list(t)[j] == view_list(s).insert(i, x@)[j] by {
        lemma_view_list_index(t, j);
        if j < i {
            lemma_view_list_index(s, j);
        } else if j > i {
            lemma_view_list_index(s, j - 1);
        }
    }
    assert(view_list(t) =~= view_list(s).insert(i, x@));
}

/// The text under `name`, or empty.
fn name_of(g: &Json) -> (r: String)
    ensures
        r@ == name_key(g@),
{
    match g.get("name") {
        Some(v) => match v.as_str() {
            Some(n) => own(n),
            None => String::new(),
        },
        None => String::new(),
    }
}

/// The groups sorted by name, stably.
fn sort_groups_by_name(v: Vec<Json>) -> (r: Vec<Json>)
    ensures
        view_list(r@) == sort_by_name(view_list(v@)),
{
    let ghost vv = view_list(v@);
    proof {
        lemma_view_list_len(v@);
        assert(vv.subrange(0, 0) =~= Seq::<JsonV>::empty());
        assert(view_list(Seq::<Json>::empty()) =~= Seq::<JsonV>::empty());
    }
    let mut out: Vec<Json> = Vec::new();
    let mut i: usize = 0;
    while i < v.len()
        invariant
            i <= v.len(),
            vv == view_list(v@),
            vv.len() == v.len(),
            view_list(out@) == sort_by_name(vv.subrange(0, i as int)),
        decreases v.len() - i,
    {
        proof {
            lemma_view_list_index(v@, i as int);
            assert(vv.subrange(0, i + 1).drop_last() =~= vv.subrange(0, i as int));
            lemma_sort_by_name_len(vv.subrange(0, i as int));
            lemma_view_list_len(out@);
        }
        let k = name_of(&v[i]);
        let ghost ov = view_list(out@);
        let mut p: usize = 0;
        while p < out.len() && !text_less(k.as_str(), name_of(&out[p]).as_str())
            invariant
                p <= out.len(),
                ov == view_list(out@),
                ov.len() == out.len(),
                forall|j: int| 0 <= j < p ==> !text_lt(k@, name_key(#[trigger] ov[j])),
            decreases out.len() - p,
        {
            proof {
                lemma_view_list_index(out@, p as int);
            }
            p += 1;
        }
        proof {
            if p < out.len() {
                lemma_view_list_index(out@, p as int);
            }
            lemma_name_insert_pos(ov, k@, p as int);
        }
        let x = v[i].duplicate();
        let ghost old_out = out@;
        out.insert(p, x);
        proof {
            lemma_view_list_insert(old_out, p as int, x);
        }
        i += 1;
    }
    assert(vv.subrange(0, v.len() as int) =~= vv);
    out
}

/// The kinds of proxy group the proxies page lists.
pub open spec fn is_group_kind(t: Seq<char>) -> bool {
    t == "Selector"@ || t == "URLTest"@ || t == "Fallback"@ || t == "LoadBalance"@ || t == "Relay"@
}

/// A proxy the groups list shows: a group kind, not `GLOBAL`, not hidden.
pub open spec fn listed_group(p: JsonV) -> bool {
    &&& match as_str(get(p, "type"@)) {
        Some(t) => is_group_kind(t),
        None => false,
    }
    &&& as_str(get(p, "name"@)) != Some("GLOBAL"@)
    &&& as_bool(get(p, "hidden"@)) != Some(true)
}

/// The proxies a group's member names stand for (names that are no text or
/// no proxy are skipped).
pub open spec fn resolve_members(names: Seq<JsonV>, proxies: Entries) -> Seq<JsonV>
    decreases names.len(),
{
    if names.len() == 0 {
        Seq::empty()
    } else {
        let r = resolve_members(names.drop_last(), proxies);
        match names.last() {
            JsonV::Str(n) => match obj_get(proxies, n) {
                Some(v) => r.push(v),
                None => r,
            },
            _ => r,
        }
    }
}

/// A group with its `all` members resolved to the full proxies.
pub open spec fn resolved_group(g: JsonV, proxies: Entries) -> JsonV {
    let all = match as_array(get(g, "all"@)) {
        Some(a) => resolve_members(a, proxies),
        None => Seq::empty(),
    };
    match g {
        JsonV::Object(e) => JsonV::Object(obj_insert(e, "all"@, JsonV::Array(all))),
        _ => g,
    }
}

/// The listed groups among the proxies, resolved, in the proxies' order.
pub open spec fn listed_groups(ps: Entries, proxies: Entries) -> Seq<JsonV>
    decreases ps.len(),
{
    if ps.len() == 0 {
        Seq::empty()
    } else {
        let r = listed_groups(ps.drop_last(), proxies);
        if listed_group(ps.last().1) {
            r.push(resolved_group(ps.last().1, proxies))
        } else {
            r
        }
    }
}

/// The proxy groups of the core's proxies (name to proxy, in the order the
/// core's map was walked): the listed ones, members resolved, sorted by name.
pub open spec fn groups_v(proxies: Entries) -> Seq<JsonV> {
    sort_by_name(listed_groups(proxies, proxies))
}

fn member_proxies(names: &Vec<Json>, proxies: &Vec<(String, Json)>) -> (r: Vec<Json>)
    ensures
        view_list(r@) == resolve_members(view_list(names@), view_entries(proxies@)),
{
    let ghost nv = view_list(names@);
    let ghost pv = view_entries(proxies@);
    proof {
        lemma_view_list_len(names@);
        assert(nv.subrange(0, 0) =~= Seq::<JsonV>::empty());
        assert(view_list(Seq::<Json>::empty()) =~= Seq::<JsonV>::empty());
    }
    let mut out: Vec<Json> = Vec::new();
    let mut i: usize = 0;
    while i < names.len()
        invariant
            i <= names.len(),
            nv == view_list(names@),
            nv.len() == names.len(),
            pv == view_entries(proxies@),
            view_list(out@) == resolve_members(nv.subrange(0, i as int), pv),
        decreases names.len() - i,
    {
        proof {
            lemma_view_list_index(names@, i as int);
            assert(nv.subrange(0, i + 1).drop_last() =~= nv.subrange(0, i as int));
        }
        match names[i].as_str() {
            Some(n) => {
                let k = find_key(proxies, n);
                proof {
                    lemma_view_entries_len(proxies@);
                    lemma_obj_index(pv, n@);
                    if k < proxies.len() {
                        lemma_view_entries_index(proxies@, k as int);
                    }
                }
                if k < proxies.len() {
                    let x = proxies[k].1.duplicate();
                    proof {
                        lemma_view_list_push(out@, x);
                    }
                    out.push(x);
                }
            },
            None => {},
        }
        i += 1;
    }
    assert(nv.subrange(0, names.len() as int) =~= nv);
    out
}

fn is_listed(p: &Json) -> (r: bool)
    ensures
        r == listed_group(p@),
{
    let kind_ok = match p.get("type") {
        Some(t) => match t.as_str() {
            Some(t) => str_eq(t, "Selector") || str_eq(t, "URLTest") || str_eq(t, "Fallback") || str_eq(
                t,
                "LoadBalance",
            ) || str_eq(t, "Relay"),
            None => false,
        },
        None => false,
    };
    let global = match p.get("name") {
        Some(n) => match n.as_str() {
            Some(n) => str_eq(n, "GLOBAL"),
            None => false,
        },
        None => false,
    };
    let hidden = match p.get("hidden") {
        Some(h) => match h.as_bool() {
            Some(b) => b,
            None => false,
        },
        None => false,
    };
    kind_ok && !global && !hidden
}

/// The proxy groups the proxies page shows (see [`groups_v`]), from the
/// core's proxies (an object from name to proxy).
pub fn groups(proxies: &Vec<(String, Json)>) -> (r: Vec<Json>)
    ensures
        view_list(r@) == groups_v(view_entries(proxies@)),
{
    let ghost pv = view_entries(proxies@);
    proof {
        lemma_view_entries_len(proxies@);
        assert(pv.subrange(0, 0) =~= Seq::<(Seq<char>, JsonV)>::empty());
        assert(view_list(Seq::<Json>::empty()) =~= Seq::<JsonV>::empty());
    }
    let mut out: Vec<Json> = Vec::new();
    let mut i: usize = 0;
    while i < proxies.len()
        invariant
            i <= proxies.len(),
            pv == view_entries(proxies@),
            pv.len() == proxies.len(),
            view_list(out@) == listed_groups(pv.subrange(0, i as int), pv),
        decreases proxies.len() - i,
    {
        proof {
            lemma_view_entries_index(proxies@, i as int);
            assert(pv.subrange(0, i + 1).drop_last() =~= pv.subrange(0, i as int));
        }
        let g = &proxies[i].1;
        if is_listed(g) {
            let all = match g.get("all") {
                Some(a) => match a.as_array() {
                    Some(names) => member_proxies(names, proxies),
                    None => Vec::new(),
                },
                None => Vec::new(),
            };
            proof {
                assert(view_list(Seq::<Json>::empty()) =~= Seq::<JsonV>::empty());
            }
            let resolved = match g.duplicate() {
                Json::Object(e) => Json::Object(insert_key(e, own("all"), Json::Array(all))),
                other => other,
            };
            proof {
                lemma_view_list_push(out@, resolved);
            }
            out.push(resolved);
        }
        i += 1;
    }
    assert(pv.subrange(0, proxies.len() as int) =~= pv);
    sort_groups_by_name(out)
}

/// `s` with every space written `%20`.
pub open spec fn encode_spaces(s: Seq<char>) -> Seq<char>
    decreases s.len(),
{
    if s.len() == 0 {
        s
    } else if s.last() == ' ' {
        encode_spaces(s.drop_last()) + "%20"@
    } else {
        encode_spaces(s.drop_last()).push(s.last())
    }
}

/// A group name as it goes into the controller's URL.
pub fn encode_group(s: &str) -> (r: String)
    ensures
        r@ == encode_spaces(s@),
{
    let cs = to_chars(s);
    let mut out = String::new();
    let mut i: usize = 0;
    assert(s@.subrange(0, 0) =~= Seq::<char>::empty());
    while i < cs.len()
        invariant
            i <= cs.len(),
            cs@ == s@,
            out@ == encode_spaces(s@.subrange(0, i as int)),
        decreases cs.len() - i,
    {
        assert(s@.subrange(0, i + 1).drop_last() =~= s@.subrange(0, i as int));
        if cs[i] == ' ' {
            proof {
                reveal_strlit("%20");
            }
            out.push_str("%20");
        } else {
            out.push(cs[i]);
        }
        i += 1;
    }
    assert(s@.subrange(0, cs.len() as int) =~= s@);
    out
}

/// The controller request that selects `proxy` in `group`: the URL to `PUT`
/// and its body `{name: proxy}`.
pub fn select_request(controller: &str, group: &str, proxy: &str) -> (r: (String, Json))
    ensures
        r.0@ == controller@ + "/proxies/"@ + encode_spaces(group@),
        r.1@ == JsonV::Object(seq![("name"@, JsonV::Str(proxy@))]),
{
    let mut url = cat(controller, "/proxies/");
    let g = encode_group(group);
    url.push_str(g.as_str());
    (url, object1("name", text_value(proxy)))
}

/// The remembered selections after `group` switched to `proxy`.
pub fn save_selection(selections: Vec<(String, Json)>, group: &str, proxy: &str) -> (r: Vec<(String, Json)>)
    ensures
        view_entries(r@) == obj_insert(view_entries(selections@), group@, JsonV::Str(proxy@)),
{
    insert_key(selections, own(group), text_value(proxy))
}

/// Whether a remembered selection still applies: the group is a selector of
/// the current proxies and the proxy one of its members.
pub open spec fn selection_applies(proxies: Entries, group: Seq<char>, proxy: Seq<char>) -> bool {
    match obj_get(proxies, group) {
        Some(g) => as_str(get(g, "type"@)) == Some("Selector"@) && match as_array(get(g, "all"@)) {
            Some(a) => a.contains(JsonV::Str(proxy)),
            None => false,
        },
        None => false,
    }
}

/// The remembered selections to restore, in order: text pairs that still
/// apply.
pub open spec fn restore_v(sel: Entries, proxies: Entries) -> Seq<(Seq<char>, Seq<char>)>
    decreases sel.len(),
{
    if sel.len() == 0 {
        Seq::empty()
    } else {
        let r = restore_v(sel.drop_last(), proxies);
        match sel.last().1 {
            JsonV::Str(p) => if selection_applies(proxies, sel.last().0, p) {
                r.push((sel.last().0, p))
            } else {
                r
            },
            _ => r,
        }
    }
}

/// Inserting an element adds it and keeps every other one.
proof fn lemma_insert_contains(s: Seq<JsonV>, i: int, x: JsonV, y: JsonV)
    requires
        0 <= i <= s.len(),
    ensures
        s.insert(i, x).contains(y) <==> (s.contains(y) || y == x),
{
    s.insert_ensures(i, x);
    let t = s.insert(i, x);
    if s.contains(y) {
        let k = choose|k: int| 0 <= k < s.len() && s[k] == y;
        if k < i {
            assert(t[k] == y);
        } else {
            assert(t[k + 1] == y);
        }
    }
    if y == x {
        assert(t[i] == y);
    }
    if t.contains(y) && y != x {
        let k = choose|k: int| 0 <= k < t.len() && t[k] == y;
        if k < i {
            assert(s[k] == y);
        } else if k > i {
            assert(t[(k - 1) + 1] == s[k - 1]);
        }
    }
}

/// Sorting by name keeps exactly the elements it was given.
proof fn lemma_sort_by_name_contains(s: Seq<JsonV>, y: JsonV)
    ensures
        sort_by_name(s).contains(y) <==> s.contains(y),
    decreases s.len(),
{
    if s.len() > 0 {
        let rest = s.drop_last();
        lemma_sort_by_name_contains(rest, y);
        let r = sort_by_name(rest);
        lemma_sort_by_name_len(rest);
        lemma_name_insert_pos_bound(r, name_key(s.last()));
        lemma_insert_contains(r, name_insert_pos(r, name_key(s.last())) as int, s.last(), y);
        if s.contains(y) && y != s.last() {
            let k = choose|k: int| 0 <= k < s.len() && s[k] == y;
            assert(rest[k] == y);
        }
        if rest.contains(y) {
            let k = choose|k: int| 0 <= k < rest.len() && rest[k] == y;
            assert(s[k] == y);
        }
        assert(s[s.len() - 1] == s.last());
    }
}

/// A listed proxy's resolved group is among the listed groups.
proof fn lemma_listed_groups_has(ps: Entries, proxies: Entries, i: int)
    requires
        0 <= i < ps.len(),
        listed_group(ps[i].1),
    ensures
        listed_groups(ps, proxies).contains(resolved_group(ps[i].1, proxies)),
    decreases ps.len(),
{
    let r = listed_groups(ps.drop_last(), proxies);
    if i < ps.len() - 1 {
        assert(ps.drop_last()[i] == ps[i]);
        lemma_listed_groups_has(ps.drop_last(), proxies, i);
        let k = choose|k: int| 0 <= k < r.len() && r[k] == resolved_group(ps[i].1, proxies);
        assert(listed_groups(ps, proxies)[k] == r[k]);
    } else {
        assert(ps.last() == ps[i]);
        assert(listed_groups(ps, proxies)[r.len() as int] == resolved_group(ps[i].1, proxies));
    }
}

/// Every listed group is the resolved group of a listed proxy.
proof fn lemma_listed_groups_from(ps: Entries, proxies: Entries, g: JsonV)
    requires
        listed_groups(ps, proxies).contains(g),
    ensures
        exists|i: int| 0 <= i < ps.len() && listed_group(#[trigger] ps[i].1) && g == resolved_group(ps[i].1, proxies),
    decreases ps.len(),
{
    let rest = ps.drop_last();
    let r = listed_groups(rest, proxies);
    let k = choose|k: int| 0 <= k < listed_groups(ps, proxies).len() && listed_groups(ps, proxies)[k] == g;
    if k < r.len() {
        assert(r[k] == g);
        lemma_listed_groups_from(rest, proxies, g);
        let i = choose|i: int| 0 <= i < rest.len() && listed_group(#[trigger] rest[i].1) && g == resolved_group(rest[i].1, proxies);
        assert(ps[i] == rest[i]);
    } else {
        assert(ps[ps.len() - 1] == ps.last());
    }
}

/// Text order is transitive.
proof fn lemma_text_lt_trans(a: Seq<char>, b: Seq<char>, c: Seq<char>)
    requires
        text_lt(a, b),
        text_lt(b, c),
    ensures
        text_lt(a, c),
    decreases a.len(),
{
    if a.len() > 0 && a[0] == b[0] && b[0] == c[0] {
        lemma_text_lt_trans(a.drop_first(), b.drop_first(), c.drop_first());
    }
}

/// No text sorts before itself.
proof fn lemma_text_lt_irrefl(a: Seq<char>)
    ensures
        !text_lt(a, a),
    decreases a.len(),
{
    if a.len() > 0 {
        lemma_text_lt_irrefl(a.drop_first());
    }
}

/// Where `name_insert_pos` puts `k`: after every element whose name does not
/// sort after `k`, before the first one whose name does.
proof fn lemma_name_insert_pos_spot(s: Seq<JsonV>, k: Seq<char>)
    ensures
        name_insert_pos(s, k) <= s.len(),
        forall|j: int| 0 <= j < name_insert_pos(s, k) ==> !text_lt(k, name_key(#[trigger] s[j])),
        name_insert_pos(s, k) < s.len() ==> text_lt(k, name_key(s[name_insert_pos(s, k) as int])),
    decreases s.len(),
{
    if s.len() > 0 && !text_lt(k, name_key(s[0])) {
        let t = s.drop_first();
        lemma_name_insert_pos_spot(t, k);
        assert forall|j: int| 0 <= j < name_insert_pos(s, k) implies !text_lt(k, name_key(#[trigger] s[j])) by {
            if j > 0 {
                assert(s[j] == t[j - 1]);
            }
        }
        if name_insert_pos(s, k) < s.len() {
            assert(s[name_insert_pos(s, k) as int] == t[name_insert_pos(t, k) as int]);
        }
    }
}

/// Sorting by name leaves no group after one whose name sorts after its own.
proof fn lemma_sort_by_name_ascending(s: Seq<JsonV>)
    ensures
        forall|j: int, l: int|
            0 <= j < l < sort_by_name(s).len() ==> !text_lt(
                name_key(#[trigger] sort_by_name(s)[l]),
                name_key(#[trigger] sort_by_name(s)[j]),
            ),
    decreases s.len(),
{
    if s.len() > 0 {
        let rest = s.drop_last();
        lemma_sort_by_name_ascending(rest);
        let r = sort_by_name(rest);
        let x = s.last();
        let k = name_key(x);
        let p = name_insert_pos(r, k) as int;
        lemma_name_insert_pos_spot(r, k);
        r.insert_ensures(p, x);
        let t = sort_by_name(s);
        assert(t == r.insert(p, x));
        assert forall|j: int, l: int| 0 <= j < l < t.len() implies !text_lt(name_key(#[trigger] t[l]), name_key(#[trigger] t[j])) by {
            if l < p {
                assert(t[l] == r[l] && t[j] == r[j]);
            } else if l == p {
                assert(t[j] == r[j]);
            } else if j == p {
                assert(t[l] == r[l - 1]);
                if text_lt(name_key(r[l - 1]), k) {
                    lemma_text_lt_trans(name_key(r[l - 1]), k, name_key(r[p]));
                    if p < l - 1 {
                        assert(!text_lt(name_key(r[l - 1]), name_key(r[p])));
                    } else {
                        lemma_text_lt_irrefl(name_key(r[p]));
                    }
                }
            } else if j < p {
                assert(t[l] == r[l - 1] && t[j] == r[j]);
            } else {
                assert(t[l] == r[l - 1] && t[j] == r[j - 1]);
            }
        }
    }
}

/// Resolving members replaces each text name of a proxy by that proxy and
/// skips the rest, in order.
proof fn lemma_resolve_members_filter_map(names: Seq<JsonV>, proxies: Entries)
    ensures
        resolve_members(names, proxies) == names.filter_map(
            |n: JsonV|
                match n {
                    JsonV::Str(s) => obj_get(proxies, s),
                    _ => None,
                },
        ),
    decreases names.len(),
{
    if names.len() > 0 {
        lemma_resolve_members_filter_map(names.drop_last(), proxies);
        let r = resolve_members(names.drop_last(), proxies);
        match names.last() {
            JsonV::Str(n) => match obj_get(proxies, n) {
                Some(v) => {
                    assert(r.push(v) =~= r + seq![v]);
                },
                None => {},
            },
            _ => {},
        }
    }
}

/// There are as many listed groups as listed proxies.
proof fn lemma_listed_groups_len(ps: Entries, proxies: Entries)
    ensures
        listed_groups(ps, proxies).len() == ps.filter(|e: (Seq<char>, JsonV)| listed_group(e.1)).len(),
    decreases ps.len(),
{
    reveal(Seq::filter);
    if ps.len() > 0 {
        lemma_listed_groups_len(ps.drop_last(), proxies);
    }
}

/// Law: each proxy shows up in the groups list once at most: the list is
/// as long as the number of visible groups (type `Selector`, `URLTest`,
/// `Fallback`, `LoadBalance` or `Relay`, not `GLOBAL`, not hidden); and a
/// listed group's `all` holds, in order, the proxy each of its text member
/// names stands for, skipping names that stand for none.
pub proof fn law_groups_counted_and_resolved(proxies: Entries, i: int)
    ensures
        groups_v(proxies).len() == proxies.filter(
            |e: (Seq<char>, JsonV)|
                {
                    let t = as_str(get(e.1, "type"@));
                    &&& (t == Some("Selector"@) || t == Some("URLTest"@) || t == Some("Fallback"@) || t == Some(
                        "LoadBalance"@,
                    ) || t == Some("Relay"@))
                    &&& as_str(get(e.1, "name"@)) != Some("GLOBAL"@)
                    &&& as_bool(get(e.1, "hidden"@)) != Some(true)
                },
        ).len(),
        (0 <= i < proxies.len() && proxies[i].1 is Object) ==> get(resolved_group(proxies[i].1, proxies), "all"@)
            == Some(
            JsonV::Array(
                (match as_array(get(proxies[i].1, "all"@)) {
                    Some(a) => a,
                    None => Seq::empty(),
                }).filter_map(
                    |n: JsonV|
                        match n {
                            JsonV::Str(s) => obj_get(proxies, s),
                            _ => None,
                        },
                ),
            ),
        ),
{
    let listed = listed_groups(proxies, proxies);
    lemma_sort_by_name_len(listed);
    lemma_listed_groups_len(proxies, proxies);
    let f1 = |e: (Seq<char>, JsonV)| listed_group(e.1);
    let f2 = |e: (Seq<char>, JsonV)|
        {
            let t = as_str(get(e.1, "type"@));
            &&& (t == Some("Selector"@) || t == Some("URLTest"@) || t == Some("Fallback"@) || t == Some(
                "LoadBalance"@,
            ) || t == Some("Relay"@))
            &&& as_str(get(e.1, "name"@)) != Some("GLOBAL"@)
            &&& as_bool(get(e.1, "hidden"@)) != Some(true)
        };
    assert(f1 =~= f2);
    if 0 <= i < proxies.len() && proxies[i].1 is Object {
        let p = proxies[i].1;
        let names = match as_array(get(p, "all"@)) {
            Some(a) => a,
            None => Seq::empty(),
        };
        lemma_resolve_members_filter_map(names, proxies);
        let all = match as_array(get(p, "all"@)) {
            Some(a) => resolve_members(a, proxies),
            None => Seq::empty(),
        };
        assert(all == resolve_members(names, proxies));
        crate::merge::lemma_obj_get_insert(p->Object_0, "all"@, JsonV::Array(all), "all"@);
    }
}

/// Law: the groups list is in name order: no group comes after one whose
/// name sorts after its own.
pub proof fn law_groups_in_name_order(proxies: Entries)
    ensures
        forall|j: int, l: int|
            0 <= j < l < groups_v(proxies).len() ==> !text_lt(
                name_key(#[trigger] groups_v(proxies)[l]),
                name_key(#[trigger] groups_v(proxies)[j]),
            ),
{
    lemma_sort_by_name_ascending(listed_groups(proxies, proxies));
}

/// Law: the groups list shows every proxy whose type is `Selector`,
/// `URLTest`, `Fallback`, `LoadBalance` or `Relay`, that is not `GLOBAL` and
/// not hidden, with its members resolved and its other keys as they were;
/// and it shows nothing else.
pub proof fn law_groups_are_the_visible_groups(proxies: Entries, i: int, g: JsonV, k: Seq<char>)
    ensures
        (0 <= i < proxies.len() && ({
            let t = as_str(get(proxies[i].1, "type"@));
            &&& (t == Some("Selector"@) || t == Some("URLTest"@) || t == Some("Fallback"@) || t == Some("LoadBalance"@)
                || t == Some("Relay"@))
            &&& as_str(get(proxies[i].1, "name"@)) != Some("GLOBAL"@)
            &&& as_bool(get(proxies[i].1, "hidden"@)) != Some(true)
        })) ==> groups_v(proxies).contains(resolved_group(proxies[i].1, proxies)),
        groups_v(proxies).contains(g) ==> exists|j: int|
            0 <= j < proxies.len() && g == resolved_group(#[trigger] proxies[j].1, proxies) && ({
                let t = as_str(get(proxies[j].1, "type"@));
                &&& (t == Some("Selector"@) || t == Some("URLTest"@) || t == Some("Fallback"@) || t == Some(
                    "LoadBalance"@,
                ) || t == Some("Relay"@))
                &&& as_str(get(proxies[j].1, "name"@)) != Some("GLOBAL"@)
                &&& as_bool(get(proxies[j].1, "hidden"@)) != Some(true)
            }),
        (0 <= i < proxies.len() && proxies[i].1 is Object && k != "all"@) ==> get(
            resolved_group(proxies[i].1, proxies),
            k,
        ) == get(proxies[i].1, k),
{
    let listed = listed_groups(proxies, proxies);
    if 0 <= i < proxies.len() {
        let p = proxies[i].1;
        if listed_group(p) {
            lemma_listed_groups_has(proxies, proxies, i);
            lemma_sort_by_name_contains(listed, resolved_group(p, proxies));
        }
        if p is Object {
            let all = match as_array(get(p, "all"@)) {
                Some(a) => resolve_members(a, proxies),
                None => Seq::empty(),
            };
            crate::merge::lemma_obj_get_insert(p->Object_0, "all"@, JsonV::Array(all), k);
        }
    }
    if groups_v(proxies).contains(g) {
        lemma_sort_by_name_contains(listed, g);
        lemma_listed_groups_from(proxies, proxies, g);
    }
}

/// Every selection a restore re-applies still applies to the current
/// proxies.
pub proof fn law_restore_only_applicable(sel: Entries, proxies: Entries, i: int)
    requires
        0 <= i < restore_v(sel, proxies).len(),
    ensures
        selection_applies(proxies, restore_v(sel, proxies)[i].0, restore_v(sel, proxies)[i].1),
    decreases sel.len(),
{
    if sel.len() > 0 {
        let r = restore_v(sel.drop_last(), proxies);
        if i < r.len() {
            law_restore_only_applicable(sel.drop_last(), proxies, i);
        }
    }
}

proof fn lemma_restore_contains(sel: Entries, proxies: Entries, i: int, proxy: Seq<char>)
    requires
        0 <= i < sel.len(),
        sel[i].1 == JsonV::Str(proxy),
        selection_applies(proxies, sel[i].0, proxy),
    ensures
        restore_v(sel, proxies).contains((sel[i].0, proxy)),
    decreases sel.len(),
{
    let r = restore_v(sel.drop_last(), proxies);
    if i == sel.len() - 1 {
        assert(restore_v(sel, proxies) == r.push((sel[i].0, proxy)));
        assert(restore_v(sel, proxies)[r.len() as int] == (sel[i].0, proxy));
    } else {
        assert(sel.drop_last()[i] == sel[i]);
        lemma_restore_contains(sel.drop_last(), proxies, i, proxy);
        let k = choose|k: int| 0 <= k < r.len() && r[k] == (sel[i].0, proxy);
        match sel.last().1 {
            JsonV::Str(p) => if selection_applies(proxies, sel.last().0, p) {
                assert(restore_v(sel, proxies)[k] == (sel[i].0, proxy));
            },
            _ => {},
        }
    }
}

/// A selection saved for a group is what the remembered selections give
/// for it afterwards (the others stay), and it is re-applied by the next
/// restore as long as it applies to the proxies then.
pub proof fn law_saved_selection_restored(sel: Entries, group: Seq<char>, proxy: Seq<char>, proxies: Entries, q: Seq<char>)
    ensures
        obj_get(obj_insert(sel, group, JsonV::Str(proxy)), q) == (if q == group {
            Some(JsonV::Str(proxy))
        } else {
            obj_get(sel, q)
        }),
        selection_applies(proxies, group, proxy) ==> restore_v(obj_insert(sel, group, JsonV::Str(proxy)), proxies).contains(
            (group, proxy),
        ),
{
    let s2 = obj_insert(sel, group, JsonV::Str(proxy));
    crate::merge::lemma_obj_get_insert(sel, group, JsonV::Str(proxy), q);
    if selection_applies(proxies, group, proxy) {
        let i = obj_index(sel, group);
        lemma_obj_index(sel, group);
        if i >= 0 {
            assert(s2[i] == (group, JsonV::Str(proxy)));
            lemma_restore_contains(s2, proxies, i, proxy);
        } else {
            assert(s2[sel.len() as int] == (group, JsonV::Str(proxy)));
            lemma_restore_contains(s2, proxies, sel.len() as int, proxy);
        }
    }
}

fn member_listed(all: &Vec<Json>, proxy: &str) -> (r: bool)
    ensures
        r == view_list(all@).contains(JsonV::Str(proxy@)),
{
    let ghost av = view_list(all@);
    proof {
        lemma_view_list_len(all@);
    }
    let mut i: usize = 0;
    while i < all.len()
        invariant
            i <= all.len(),
            av == view_list(all@),
            av.len() == all.len(),
            forall|j: int| 0 <= j < i ==> av[j] != JsonV::Str(proxy@),
        decreases all.len() - i,
    {
        proof {
            lemma_view_list_index(all@, i as int);
        }
        match all[i].as_str() {
            Some(n) => if str_eq(n, proxy) {
                assert(av[i as int] == JsonV::Str(proxy@));
                return true;
            },
            None => {},
        }
        i += 1;
    }
    false
}

/// The `(group, proxy)` selections to restore on the current proxies (see
/// [`restore_v`]).
pub fn restore_plan(selections: &Vec<(String, Json)>, proxies: &Vec<(String, Json)>) -> (r: Vec<(String, String)>)
    ensures
        r@.map_values(|x: (String, String)| (x.0@, x.1@)) == restore_v(view_entries(selections@), view_entries(proxies@)),
{
    let ghost sv = view_entries(selections@);
    let ghost pv = view_entries(proxies@);
    proof {
        lemma_view_entries_len(selections@);
        assert(sv.subrange(0, 0) =~= Seq::<(Seq<char>, JsonV)>::empty());
    }
    let mut out: Vec<(String, String)> = Vec::new();
    let mut i: usize = 0;
    assert(out@.map_values(|x: (String, String)| (x.0@, x.1@)) =~= Seq::<(Seq<char>, Seq<char>)>::empty());
    while i < selections.len()
        invariant
            i <= selections.len(),
            sv == view_entries(selections@),
            sv.len() == selections.len(),
            pv == view_entries(proxies@),
            out@.map_values(|x: (String, String)| (x.0@, x.1@)) == restore_v(sv.subrange(0, i as int), pv),
        decreases selections.len() - i,
    {
        proof {
            lemma_view_entries_index(selections@, i as int);
            assert(sv.subrange(0, i + 1).drop_last() =~= sv.subrange(0, i as int));
        }
        let group = &selections[i].0;
        match selections[i].1.as_str() {
            Some(p) => {
                let k = find_key(proxies, group.as_str());
                proof {
                    lemma_view_entries_len(proxies@);
                    lemma_obj_index(pv, group@);
                    if k < proxies.len() {
                        lemma_view_entries_index(proxies@, k as int);
                    }
                }
                if k < proxies.len() {
                    let g = &proxies[k].1;
                    let is_selector = match g.get("type") {
                        Some(t) => match t.as_str() {
                            Some(t) => str_eq(t, "Selector"),
                            None => false,
                        },
                        None => false,
                    };
                    let member = match g.get("all") {
                        Some(a) => match a.as_array() {
                            Some(all) => member_listed(all, p),
                            None => false,
                        },
                        None => false,
                    };
                    if is_selector && member {
                        let ghost before = out@;
                        let x = (group.clone(), own(p));
                        out.push(x);
                        assert(out@.map_values(|x: (String, String)| (x.0@, x.1@)) =~= before.map_values(
                            |x: (String, String)| (x.0@, x.1@),
                        ).push((group@, p@)));
                    }
                }
            },
            None => {},
        }
        i += 1;
    }
    assert(sv.subrange(0, selections.len() as int) =~= sv);
    out
}

/// The URL and timeout of a delay test: the given URL when non-empty, else
/// the app config's `delayTestUrl` when non-empty, else Cloudflare's; the
/// config's `delayTestTimeout` (cut to 32 bits), else 5000 ms.
pub fn delay_test_params(url: Option<String>, app_config: &Json) -> (r: (String, u32))
    ensures
        r.0@ == (match url {
            Some(u) => if u@.len() > 0 {
                u@
            } else {
                cfg_nonempty_text(app_config@, "delayTestUrl"@, "https://cp.cloudflare.com"@)
            },
            None => cfg_nonempty_text(app_config@, "delayTestUrl"@, "https://cp.cloudflare.com"@),
        }),
        r.1 == (match as_u64(get(app_config@, "delayTestTimeout"@)) {
            Some(t) => (t % 0x1_0000_0000) as u32,
            None => 5000u32,
        }),
{
    let default_url = match app_config.get("delayTestUrl") {
        Some(v) => match v.as_str() {
            Some(s) => if !s.is_empty() {
                own(s)
            } else {
                own("https://cp.cloudflare.com")
            },
            None => own("https://cp.cloudflare.com"),
        },
        None => own("https://cp.cloudflare.com"),
    };
    let test_url = match url {
        Some(u) => if !u.as_str().is_empty() {
            u
        } else {
            default_url
        },
        None => default_url,
    };
    let timeout = match app_config.get("delayTestTimeout") {
        Some(v) => match v.as_u64() {
            Some(t) => (t % 0x1_0000_0000) as u32,
            None => 5000,
        },
        None => 5000,
    };
    (test_url, timeout)
}

/// The text under `key` when non-empty, else `default`.
pub open spec fn cfg_nonempty_text(cfg: JsonV, key: Seq<char>, default: Seq<char>) -> Seq<char> {
    match as_str(get(cfg, key)) {
        Some(s) => if s.len() > 0 {
            s
        } else {
            default
        },
        None => default,
    }
}

} // verus!
