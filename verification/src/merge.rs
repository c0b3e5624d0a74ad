use vstd::prelude::*;

use crate::json::{
    duplicate_entries, find_key, lemma_obj_index, lemma_view_entries_index, lemma_view_entries_len,
    lemma_view_entries_push, lemma_view_entries_update, obj_get, obj_insert, view_entries,
    Entries, Json, JsonV, obj_index, lemma_obj_index_none, keys_unique, get,
};
use crate::text::str_eq;

verus! {

/// Entries without any entry named `k` (left to right).
pub open spec fn without_key(e: Entries, k: Seq<char>) -> Entries
    decreases e.len(),
{
    if e.len() == 0 {
        e
    } else {
        let rest = without_key(e.drop_last(), k);
        if e.last().0 == k {
            rest
        } else {
            rest.push(e.last())
        }
    }
}

/// One patch entry applied to an object's entries, as a JSON merge patch
/// (RFC 7396) applies it: `null` deletes, an object merges into the current
/// value (an empty object when absent), anything else replaces.
pub open spec fn patch_step(b: Entries, k: Seq<char>, v: JsonV) -> Entries
    decreases v, 2nat,
{
    match v {
        JsonV::Null => without_key(b, k),
        JsonV::Object(p) => {
            let cur = match obj_get(b, k) {
                Some(c) => c,
                None => JsonV::Object(Seq::empty()),
            };
            obj_insert(b, k, merge_patch_v(cur, v))
        },
        _ => obj_insert(b, k, v),
    }
}

/// The patch entries `p` applied in order.
pub open spec fn patch_entries(b: Entries, p: Entries) -> Entries
    decreases p, 1nat,
{
    if p.len() == 0 {
        b
    } else {
        let last = p[p.len() - 1];
        patch_step(patch_entries(b, p.subrange(0, p.len() - 1)), last.0, last.1)
    }
}

/// `patch` merged into `base`; a base that is no object, or a patch that is no
/// object, leaves the base as it is.
pub open spec fn merge_patch_v(base: JsonV, patch: JsonV) -> JsonV
    decreases patch, 0nat,
{
    match (base, patch) {
        (JsonV::Object(b), JsonV::Object(p)) => JsonV::Object(patch_entries(b, p)),
        _ => base,
    }
}

} // verus!

verus! {

/// `e` without its entries named `key`.
pub fn remove_key(e: &Vec<(String, Json)>, key: &str) -> (r: Vec<(String, Json)>)
    ensures
        view_entries(r@) == without_key(view_entries(e@), key@),
{
    let ghost ve = view_entries(e@);
    proof {
        lemma_view_entries_len(e@);
    }
    let mut out: Vec<(String, Json)> = Vec::new();
    let mut i: usize = 0;
    while i < e.len()
        invariant
            i <= e.len(),
            ve == view_entries(e@),
            ve.len() == e.len(),
            view_entries(out@) == without_key(ve.subrange(0, i as int), key@),
        decreases e.len() - i,
    {
        proof {
            lemma_view_entries_index(e@, i as int);
            assert(ve.subrange(0, i + 1).drop_last() =~= ve.subrange(0, i as int));
        }
        if !str_eq(e[i].0.as_str(), key) {
            let x = (e[i].0.clone(), e[i].1.duplicate());
            proof {
                lemma_view_entries_push(out@, x);
            }
            out.push(x);
        }
        i += 1;
    }
    assert(ve.subrange(0, e.len() as int) =~= ve);
    out
}

/// `e` with the entry named `key` set to `v` (in place, else appended).
pub fn insert_key(e: Vec<(String, Json)>, key: String, v: Json) -> (r: Vec<(String, Json)>)
    ensures
        view_entries(r@) == obj_insert(view_entries(e@), key@, v@),
{
    let mut e = e;
    let i = find_key(&e, key.as_str());
    proof {
        lemma_view_entries_len(e@);
    }
    if i < e.len() {
        let ghost e0 = e@;
        proof {
            lemma_view_entries_update(e0, i as int, (key, v));
        }
        e.set(i, (key, v));
        e
    } else {
        proof {
            lemma_view_entries_push(e@, (key, v));
        }
        e.push((key, v));
        e
    }
}

} // verus!

verus! {

/// `patch` merged into `base` as a JSON merge patch: `null` deletes a key, an
/// object merges into the current value, anything else replaces it.
pub fn merge_patch(base: Json, patch: &Json) -> (r: Json)
    ensures
        r@ == merge_patch_v(base@, patch@),
    decreases patch,
{
    match patch {
        Json::Object(p) => match base {
            Json::Object(b) => {
                let r = patch_object(b, p);
                Json::Object(r)
            },
            other => other,
        },
        _ => base,
    }
}

fn patch_object(b: Vec<(String, Json)>, p: &Vec<(String, Json)>) -> (r: Vec<(String, Json)>)
    ensures
        view_entries(r@) == patch_entries(view_entries(b@), view_entries(p@)),
    decreases p,
{
    let ghost bv = view_entries(b@);
    let ghost pv = view_entries(p@);
    proof {
        lemma_view_entries_len(p@);
        assert(pv.subrange(0, 0) =~= Seq::<(Seq<char>, JsonV)>::empty());
    }
    let mut cur = b;
    let mut i: usize = 0;
    while i < p.len()
        invariant
            i <= p.len(),
            pv == view_entries(p@),
            pv.len() == p.len(),
            view_entries(cur@) == patch_entries(bv, pv.subrange(0, i as int)),
        decreases p.len() - i,
    {
        proof {
            lemma_view_entries_index(p@, i as int);
            assert(pv.subrange(0, i + 1).subrange(0, i as int) =~= pv.subrange(0, i as int));
        }
        let k = &p[i].0;
        let v = &p[i].1;
        let ghost before = view_entries(cur@);
        if v.is_null() {
            cur = remove_key(&cur, k.as_str());
        } else if v.is_object() {
            let j = find_key(&cur, k.as_str());
            proof {
                lemma_view_entries_len(cur@);
                lemma_obj_index(view_entries(cur@), k@);
                if j < cur.len() {
                    lemma_view_entries_index(cur@, j as int);
                }
            }
            let c = if j < cur.len() {
                cur[j].1.duplicate()
            } else {
                Json::Object(Vec::new())
            };
            proof {
                assert(view_entries(Seq::<(String, Json)>::empty()) =~= Seq::<(Seq<char>, JsonV)>::empty());
            }
            assert(decreases_to!(p => p@[i as int].1));
            let m = merge_patch(c, v);
            cur = insert_key(cur, k.clone(), m);
        } else {
            cur = insert_key(cur, k.clone(), v.duplicate());
        }
        proof {
            assert(view_entries(cur@) == patch_step(before, k@, v@));
            let pre = pv.subrange(0, i + 1);
            assert(pre[pre.len() - 1] == pv[i as int]);
            assert(patch_entries(bv, pre) == patch_step(
                patch_entries(bv, pre.subrange(0, pre.len() - 1)),
                pv[i as int].0,
                pv[i as int].1,
            ));
        }
        i += 1;
    }
    assert(pv.subrange(0, p.len() as int) =~= pv);
    cur
}

} // verus!

verus! {

/// An object with its `null` members removed, nested objects included
/// (arrays are left as they are).
pub open spec fn strip_nulls_v(j: JsonV) -> JsonV
    decreases j, 1nat,
{
    match j {
        JsonV::Object(e) => JsonV::Object(strip_entries(e)),
        _ => j,
    }
}

pub open spec fn strip_entries(e: Entries) -> Entries
    decreases e, 0nat,
{
    if e.len() == 0 {
        e
    } else {
        let rest = strip_entries(e.subrange(0, e.len() - 1));
        let last = e[e.len() - 1];
        if last.1 is Null {
            rest
        } else {
            rest.push((last.0, strip_nulls_v(last.1)))
        }
    }
}

/// `j` with the `null` members of every object removed.
pub fn strip_nulls(j: &Json) -> (r: Json)
    ensures
        r@ == strip_nulls_v(j@),
    decreases j,
{
    match j {
        Json::Object(e) => Json::Object(strip_object(e)),
        _ => j.duplicate(),
    }
}

fn strip_object(e: &Vec<(String, Json)>) -> (r: Vec<(String, Json)>)
    ensures
        view_entries(r@) == strip_entries(view_entries(e@)),
    decreases e,
{
    let ghost ev = view_entries(e@);
    proof {
        lemma_view_entries_len(e@);
        assert(ev.subrange(0, 0) =~= Seq::<(Seq<char>, JsonV)>::empty());
        assert(view_entries(Seq::<(String, Json)>::empty()) =~= Seq::<(Seq<char>, JsonV)>::empty());
    }
    let mut out: Vec<(String, Json)> = Vec::new();
    let mut i: usize = 0;
    while i < e.len()
        invariant
            i <= e.len(),
            ev == view_entries(e@),
            ev.len() == e.len(),
            view_entries(out@) == strip_entries(ev.subrange(0, i as int)),
        decreases e.len() - i,
    {
        proof {
            lemma_view_entries_index(e@, i as int);
            let pre = ev.subrange(0, i + 1);
            assert(pre.subrange(0, pre.len() - 1) =~= ev.subrange(0, i as int));
            assert(pre[pre.len() - 1] == ev[i as int]);
        }
        if !e[i].1.is_null() {
            assert(decreases_to!(e => e@[i as int].1));
            let x = (e[i].0.clone(), strip_nulls(&e[i].1));
            proof {
                lemma_view_entries_push(out@, x);
            }
            out.push(x);
        }
        i += 1;
    }
    assert(ev.subrange(0, e.len() as int) =~= ev);
    out
}

/// Removing the `null` members of a document a second time changes nothing:
/// what `strip_nulls` leaves holds no `null` member at any depth.
pub proof fn law_strip_nulls_idempotent(j: JsonV)
    ensures
        strip_nulls_v(strip_nulls_v(j)) == strip_nulls_v(j),
    decreases j, 1nat,
{
    match j {
        JsonV::Object(e) => {
            lemma_strip_entries_idempotent(e);
        },
        _ => {},
    }
}

proof fn lemma_strip_entries_idempotent(e: Entries)
    ensures
        strip_entries(strip_entries(e)) == strip_entries(e),
    decreases e, 0nat,
{
    if e.len() > 0 {
        let init = e.subrange(0, e.len() - 1);
        let last = e[e.len() - 1];
        lemma_strip_entries_idempotent(init);
        if !(last.1 is Null) {
            let rest = strip_entries(init);
            let s = rest.push((last.0, strip_nulls_v(last.1)));
            assert(decreases_to!(e => last));
            law_strip_nulls_idempotent(last.1);
            assert(s.subrange(0, s.len() - 1) =~= rest);
            assert(s[s.len() - 1] == (last.0, strip_nulls_v(last.1)));
        }
    }
}

/// An object's entries without its `null` members (one level only).
pub open spec fn drop_null_entries(e: Entries) -> Entries
    decreases e.len(),
{
    if e.len() == 0 {
        e
    } else {
        let rest = drop_null_entries(e.drop_last());
        if e.last().1 is Null {
            rest
        } else {
            rest.push(e.last())
        }
    }
}

/// The top level of `j` without `null` members, and how many were dropped.
pub fn drop_top_level_nulls(j: &Json) -> (r: (Json, usize))
    ensures
        match j@ {
            JsonV::Object(e) => r.0@ == JsonV::Object(drop_null_entries(e)) && r.1 as int == e.len()
                - drop_null_entries(e).len(),
            _ => r.0@ == j@ && r.1 == 0,
        },
{
    match j {
        Json::Object(e) => {
            let ghost ev = view_entries(e@);
            proof {
                lemma_view_entries_len(e@);
                assert(ev.subrange(0, 0) =~= Seq::<(Seq<char>, JsonV)>::empty());
                assert(view_entries(Seq::<(String, Json)>::empty()) =~= Seq::<(Seq<char>, JsonV)>::empty());
            }
            let mut out: Vec<(String, Json)> = Vec::new();
            let mut dropped: usize = 0;
            let mut i: usize = 0;
            while i < e.len()
                invariant
                    i <= e.len(),
                    ev == view_entries(e@),
                    ev.len() == e.len(),
                    view_entries(out@) == drop_null_entries(ev.subrange(0, i as int)),
                    out.len() + dropped == i,
                decreases e.len() - i,
            {
                proof {
                    lemma_view_entries_index(e@, i as int);
                    let pre = ev.subrange(0, i + 1);
                    assert(pre.drop_last() =~= ev.subrange(0, i as int));
                    lemma_view_entries_len(out@);
                }
                if e[i].1.is_null() {
                    dropped += 1;
                } else {
                    let x = (e[i].0.clone(), e[i].1.duplicate());
                    proof {
                        lemma_view_entries_push(out@, x);
                    }
                    out.push(x);
                }
                i += 1;
            }
            proof {
                assert(ev.subrange(0, e.len() as int) =~= ev);
                lemma_view_entries_len(out@);
            }
            (Json::Object(out), dropped)
        },
        _ => (j.duplicate(), 0),
    }
}

} // verus!

verus! {

/// One overlay entry layered onto a mapping: `null` is skipped, a mapping
/// merges into an existing mapping, anything else replaces.
pub open spec fn overlay_step(b: Entries, k: Seq<char>, v: JsonV) -> Entries
    decreases v, 2nat,
{
    match v {
        JsonV::Null => b,
        JsonV::Object(_) => match obj_get(b, k) {
            Some(JsonV::Object(c)) => obj_insert(b, k, overlay_v(JsonV::Object(c), v)),
            _ => obj_insert(b, k, v),
        },
        _ => obj_insert(b, k, v),
    }
}

pub open spec fn overlay_entries(b: Entries, p: Entries) -> Entries
    decreases p, 1nat,
{
    if p.len() == 0 {
        b
    } else {
        let last = p[p.len() - 1];
        overlay_step(overlay_entries(b, p.subrange(0, p.len() - 1)), last.0, last.1)
    }
}

/// `patch` layered deeply onto `base` when both are mappings; otherwise the
/// base is kept.
pub open spec fn overlay_v(base: JsonV, patch: JsonV) -> JsonV
    decreases patch, 0nat,
{
    match (base, patch) {
        (JsonV::Object(b), JsonV::Object(p)) => JsonV::Object(overlay_entries(b, p)),
        _ => base,
    }
}

/// `patch` layered deeply onto `base` (the app's overrides onto a profile).
pub fn overlay(base: Json, patch: &Json) -> (r: Json)
    ensures
        r@ == overlay_v(base@, patch@),
    decreases patch,
{
    match patch {
        Json::Object(p) => match base {
            Json::Object(b) => {
                let r = overlay_object(b, p);
                Json::Object(r)
            },
            other => other,
        },
        _ => base,
    }
}

fn overlay_object(b: Vec<(String, Json)>, p: &Vec<(String, Json)>) -> (r: Vec<(String, Json)>)
    ensures
        view_entries(r@) == overlay_entries(view_entries(b@), view_entries(p@)),
    decreases p,
{
    let ghost bv = view_entries(b@);
    let ghost pv = view_entries(p@);
    proof {
        lemma_view_entries_len(p@);
        assert(pv.subrange(0, 0) =~= Seq::<(Seq<char>, JsonV)>::empty());
    }
    let mut cur = b;
    let mut i: usize = 0;
    while i < p.len()
        invariant
            i <= p.len(),
            pv == view_entries(p@),
            pv.len() == p.len(),
            view_entries(cur@) == overlay_entries(bv, pv.subrange(0, i as int)),
        decreases p.len() - i,
    {
        proof {
            lemma_view_entries_index(p@, i as int);
            assert(pv.subrange(0, i + 1).subrange(0, i as int) =~= pv.subrange(0, i as int));
        }
        let k = &p[i].0;
        let v = &p[i].1;
        let ghost before = view_entries(cur@);
        if v.is_null() {
        } else if v.is_object() {
            let j = find_key(&cur, k.as_str());
            proof {
                lemma_view_entries_len(cur@);
                lemma_obj_index(view_entries(cur@), k@);
                if j < cur.len() {
                    lemma_view_entries_index(cur@, j as int);
                }
            }
            if j < cur.len() && cur[j].1.is_object() {
                let c = cur[j].1.duplicate();
                assert(decreases_to!(p => p@[i as int].1));
                let m = overlay(c, v);
                cur = insert_key(cur, k.clone(), m);
            } else {
                cur = insert_key(cur, k.clone(), v.duplicate());
            }
        } else {
            cur = insert_key(cur, k.clone(), v.duplicate());
        }
        proof {
            assert(view_entries(cur@) == overlay_step(before, k@, v@));
            let pre = pv.subrange(0, i + 1);
            assert(pre[pre.len() - 1] == pv[i as int]);
            assert(overlay_entries(bv, pre) == overlay_step(
                overlay_entries(bv, pre.subrange(0, pre.len() - 1)),
                pv[i as int].0,
                pv[i as int].1,
            ));
        }
        i += 1;
    }
    assert(pv.subrange(0, p.len() as int) =~= pv);
    cur
}

} // verus!

verus! {

pub proof fn lemma_obj_get_push(e: Entries, x: (Seq<char>, JsonV), q: Seq<char>)
    ensures
        obj_get(e.push(x), q) == (if obj_get(e, q) is Some {
            obj_get(e, q)
        } else if x.0 == q {
            Some(x.1)
        } else {
            None::<JsonV>
        }),
    decreases e.len(),
{
    let ep = e.push(x);
    if e.len() == 0 {
        assert(ep.subrange(1, 1) =~= Seq::<(Seq<char>, JsonV)>::empty());
    } else {
        assert(ep.subrange(1, ep.len() as int) =~= e.subrange(1, e.len() as int).push(x));
        lemma_obj_get_push(e.subrange(1, e.len() as int), x, q);
    }
}

pub proof fn lemma_obj_get_without_key(e: Entries, k: Seq<char>, q: Seq<char>)
    ensures
        obj_get(without_key(e, k), q) == (if q == k {
            None::<JsonV>
        } else {
            obj_get(e, q)
        }),
    decreases e.len(),
{
    if e.len() > 0 {
        let init = e.drop_last();
        assert(e =~= init.push(e.last()));
        lemma_obj_get_without_key(init, k, q);
        lemma_obj_get_push(init, e.last(), q);
        if e.last().0 != k {
            lemma_obj_get_push(without_key(init, k), e.last(), q);
        }
    }
}

/// Two entry lists whose names agree position by position.
pub open spec fn same_keys(a: Entries, b: Entries) -> bool {
    a.len() == b.len() && forall|i: int| 0 <= i < a.len() ==> a[i].0 == b[i].0
}

pub proof fn lemma_obj_index_same_keys(a: Entries, b: Entries, q: Seq<char>)
    requires
        same_keys(a, b),
    ensures
        obj_index(a, q) == obj_index(b, q),
    decreases a.len(),
{
    if a.len() > 0 {
        let ta = a.subrange(1, a.len() as int);
        let tb = b.subrange(1, b.len() as int);
        assert forall|i: int| 0 <= i < ta.len() implies ta[i].0 == tb[i].0 by {
            assert(ta[i] == a[i + 1]);
            assert(tb[i] == b[i + 1]);
        }
        lemma_obj_index_same_keys(ta, tb, q);
    }
}

pub proof fn lemma_obj_get_insert(e: Entries, k: Seq<char>, v: JsonV, q: Seq<char>)
    ensures
        obj_get(obj_insert(e, k, v), q) == (if q == k {
            Some(v)
        } else {
            obj_get(e, q)
        }),
{
    let i = obj_index(e, k);
    lemma_obj_index(e, k);
    if i >= 0 {
        let u = e.update(i, (k, v));
        assert(same_keys(e, u));
        lemma_obj_index_same_keys(e, u, q);
        lemma_obj_index(e, q);
        lemma_obj_index(u, q);
        if q == k {
            assert(obj_index(u, q) == i);
        } else {
            if obj_index(e, q) >= 0 {
                assert(obj_index(e, q) != i);
            }
        }
    } else {
        lemma_obj_get_push(e, (k, v), q);
    }
}

/// What a merge patch leaves under a key that the patch names with `v`, given
/// the key's value `cur` before.
pub open spec fn patched_value(cur: Option<JsonV>, v: JsonV) -> Option<JsonV> {
    match v {
        JsonV::Null => None,
        JsonV::Object(_) => Some(
            merge_patch_v(
                match cur {
                    Some(c) => c,
                    None => JsonV::Object(Seq::empty()),
                },
                v,
            ),
        ),
        _ => Some(v),
    }
}

pub proof fn lemma_obj_get_patch_step(b: Entries, k: Seq<char>, v: JsonV, q: Seq<char>)
    ensures
        obj_get(patch_step(b, k, v), q) == (if q == k {
            patched_value(obj_get(b, k), v)
        } else {
            obj_get(b, q)
        }),
{
    match v {
        JsonV::Null => lemma_obj_get_without_key(b, k, q),
        JsonV::Object(_) => {
            let cur = match obj_get(b, k) {
                Some(c) => c,
                None => JsonV::Object(Seq::empty()),
            };
            lemma_obj_get_insert(b, k, merge_patch_v(cur, v), q);
        },
        _ => lemma_obj_get_insert(b, k, v, q),
    }
}

pub proof fn lemma_obj_get_patch_entries(b: Entries, p: Entries, q: Seq<char>)
    requires
        keys_unique(p),
    ensures
        obj_get(patch_entries(b, p), q) == match obj_get(p, q) {
            None => obj_get(b, q),
            Some(v) => patched_value(obj_get(b, q), v),
        },
    decreases p.len(),
{
    if p.len() > 0 {
        let init = p.subrange(0, p.len() - 1);
        let last = p[p.len() - 1];
        assert(p =~= init.push(last));
        assert(keys_unique(init));
        lemma_obj_get_patch_entries(b, init, q);
        lemma_obj_get_patch_step(patch_entries(b, init), last.0, last.1, q);
        lemma_obj_get_push(init, last, q);
        if q == last.0 {
            lemma_obj_index(init, q);
            assert forall|j: int| 0 <= j < init.len() implies init[j].0 != q by {
                assert(p[j] == init[j]);
            }
            lemma_obj_index_none(init, q);
            lemma_obj_get_patch_entries(b, init, last.0);
        }
    }
}

/// Law: after a merge patch with distinct keys, every key that the patch names
/// holds what the patch asks for (gone for `null`, the nested merge for an
/// object, the patch value otherwise) and every other key keeps its value.
pub proof fn law_merge_patch_lookup(base: JsonV, patch: JsonV, q: Seq<char>)
    requires
        base is Object,
        patch is Object,
        keys_unique(patch->Object_0),
    ensures
        get(merge_patch_v(base, patch), q) == match obj_get(patch->Object_0, q) {
            None => get(base, q),
            Some(v) => patched_value(get(base, q), v),
        },
{
    lemma_obj_get_patch_entries(base->Object_0, patch->Object_0, q);
}

/// A patch whose objects, at every depth, name each key once.
pub open spec fn unique_keys_deep(j: JsonV) -> bool
    decreases j, 1nat,
{
    match j {
        JsonV::Object(e) => keys_unique(e) && entries_unique_deep(e),
        _ => true,
    }
}

/// Every value among the entries names each key once, at every depth.
pub open spec fn entries_unique_deep(e: Entries) -> bool
    decreases e, 0nat,
{
    if e.len() == 0 {
        true
    } else {
        entries_unique_deep(e.subrange(0, e.len() - 1)) && unique_keys_deep(e[e.len() - 1].1)
    }
}

proof fn lemma_entries_unique_deep(e: Entries)
    requires
        entries_unique_deep(e),
    ensures
        forall|i: int| 0 <= i < e.len() ==> #[trigger] unique_keys_deep(e[i].1),
    decreases e.len(),
{
    if e.len() > 0 {
        let init = e.subrange(0, e.len() - 1);
        lemma_entries_unique_deep(init);
        assert forall|i: int| 0 <= i < e.len() implies #[trigger] unique_keys_deep(e[i].1) by {
            if i < e.len() - 1 {
                assert(init[i] == e[i]);
            }
        }
    }
}

proof fn lemma_without_absent_key(e: Entries, k: Seq<char>)
    requires
        forall|j: int| 0 <= j < e.len() ==> e[j].0 != k,
    ensures
        without_key(e, k) == e,
    decreases e.len(),
{
    if e.len() > 0 {
        lemma_without_absent_key(e.drop_last(), k);
        assert(e.drop_last().push(e.last()) =~= e);
    }
}

proof fn lemma_insert_present(e: Entries, k: Seq<char>, v: JsonV)
    requires
        obj_get(e, k) == Some(v),
    ensures
        obj_insert(e, k, v) == e,
{
    lemma_obj_index(e, k);
    if obj_index(e, k) < 0 {
        assert(false);
    }
    assert(e.update(obj_index(e, k), (k, v)) =~= e);
}

/// Each entry of a patch leaves the patched object as it is.
proof fn lemma_patched_step_fixed(b: Entries, p: Entries, i: int)
    requires
        keys_unique(p),
        0 <= i < p.len(),
        unique_keys_deep(p[i].1),
    ensures
        patch_step(patch_entries(b, p), p[i].0, p[i].1) == patch_entries(b, p),
    decreases JsonV::Object(p), 0nat, 0int,
{
    let bp = patch_entries(b, p);
    let k = p[i].0;
    let v = p[i].1;
    lemma_obj_index(p, k);
    assert(obj_index(p, k) == i) by {
        if obj_index(p, k) != i {
            assert(p[obj_index(p, k)].0 == k);
        }
    }
    lemma_obj_get_patch_entries(b, p, k);
    match v {
        JsonV::Null => {
            lemma_obj_index(bp, k);
            lemma_without_absent_key(bp, k);
        },
        JsonV::Object(_) => {
            let cur = match obj_get(b, k) {
                Some(c) => c,
                None => JsonV::Object(Seq::empty()),
            };
            let m = merge_patch_v(cur, v);
            let o = JsonV::Object(p);
            assert(decreases_to!(o => o->Object_0));
            assert(decreases_to!(o->Object_0 => o->Object_0[i]));
            assert(decreases_to!(o->Object_0[i] => o->Object_0[i].1));
            law_merge_patch_idempotent(cur, v);
            lemma_insert_present(bp, k, m);
        },
        _ => {
            lemma_insert_present(bp, k, v);
        },
    }
}

proof fn lemma_patch_entries_fixed(b: Entries, p: Entries, n: int)
    requires
        keys_unique(p),
        0 <= n <= p.len(),
        forall|i: int| 0 <= i < p.len() ==> #[trigger] unique_keys_deep(p[i].1),
    ensures
        patch_entries(patch_entries(b, p), p.subrange(0, n)) == patch_entries(b, p),
    decreases JsonV::Object(p), 1nat, n,
{
    let bp = patch_entries(b, p);
    if n > 0 {
        let pre = p.subrange(0, n);
        assert(pre.subrange(0, n - 1) =~= p.subrange(0, n - 1));
        assert(pre[n - 1] == p[n - 1]);
        lemma_patch_entries_fixed(b, p, n - 1);
        lemma_patched_step_fixed(b, p, n - 1);
    } else {
        assert(p.subrange(0, 0) =~= Seq::<(Seq<char>, JsonV)>::empty());
    }
}

/// Applying the same merge patch a second time changes nothing, for a patch
/// whose objects name each key once.
pub proof fn law_merge_patch_idempotent(base: JsonV, patch: JsonV)
    requires
        unique_keys_deep(patch),
    ensures
        merge_patch_v(merge_patch_v(base, patch), patch) == merge_patch_v(base, patch),
    decreases patch, 2nat, 0int,
{
    match (base, patch) {
        (JsonV::Object(b), JsonV::Object(p)) => {
            lemma_entries_unique_deep(p);
            lemma_patch_entries_fixed(b, p, p.len() as int);
            assert(p.subrange(0, p.len() as int) =~= p);
        },
        _ => {},
    }
}

/// A merge patch changes only a mapping, and only with a mapping: when the
/// base or the patch is anything else, the base stays as it is.
pub proof fn law_merge_patch_needs_mappings(base: JsonV, patch: JsonV)
    ensures
        !(base is Object && patch is Object) ==> merge_patch_v(base, patch) == base,
{
}

/// The controlled overrides after a patch: merged in, then every `null`
/// left anywhere removed.
pub fn patch_overrides(base: Json, patch: &Json) -> (r: Json)
    ensures
        r@ == strip_nulls_v(merge_patch_v(base@, patch@)),
{
    let merged = merge_patch(base, patch);
    strip_nulls(&merged)
}

} // verus!
