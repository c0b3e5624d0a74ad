use vstd::prelude::*;
use vstd::utf8::{decode_utf8, valid_utf8};

use base64::Engine;

use crate::connection::{find_item, item_index, lemma_item_index, object2, text_value, with_member};
use crate::json::{
    as_array, as_str, duplicate_list, get, lemma_view_list_index, lemma_view_list_len,
    lemma_view_list_push, obj_insert, view_entries, view_list, Entries, Json, JsonV,
};
use crate::merge::insert_key;
use crate::state::{field_text, text_field, text_or};
use crate::text::{
    cat, i64_text, int_text, own, parse_i64, parse_i64_str, split_char, split_str, starts_with,
    starts_with_str, to_chars, from_chars, slice_range, trim, trim_str,
};

verus! {

/// What a standard, padded base64 decoder (the `base64` crate's `STANDARD`
/// engine) yields for a text: the bytes, or nothing when the text is no
/// valid encoding. Depends on the text alone.
pub uninterp spec fn base64_standard_decoding(text: Seq<char>) -> Option<Seq<u8>>;

/// Calls `base64::engine::general_purpose::STANDARD.decode`; the result is
/// named by [`base64_standard_decoding`] of the text.
#[verifier::external_body]
fn base64_decode(text: &str) -> (r: Option<Vec<u8>>)
    ensures
        match r {
            Some(b) => base64_standard_decoding(text@) == Some(b@),
            None => base64_standard_decoding(text@) is None,
        },
{
    base64::engine::general_purpose::STANDARD.decode(text).ok()
}

/// Calls `String::from_utf8`: a text exactly when the bytes are valid UTF-8,
/// holding the characters they encode.
#[verifier::external_body]
fn utf8_text(bytes: Vec<u8>) -> (r: Option<String>)
    ensures
        r is Some == valid_utf8(bytes@),
        match r {
            Some(s) => s@ == decode_utf8(bytes@),
            None => true,
        },
{
    String::from_utf8(bytes).ok()
}

/// The text after a `base64:` prefix, trimmed; nothing without the prefix.
pub open spec fn base64_payload_v(value: Seq<char>) -> Option<Seq<char>> {
    if starts_with(value, "base64:"@) {
        Some(trim(value.subrange(7, value.len() as int)))
    } else {
        None
    }
}

/// A header value as shown, given what decoding its base64 payload gave:
/// the decoded text when the bytes are UTF-8, else the value as it is.
pub open spec fn header_value_from_v(value: Seq<char>, decoded: Option<Seq<u8>>) -> Seq<char> {
    match decoded {
        Some(bytes) => if valid_utf8(bytes) {
            decode_utf8(bytes)
        } else {
            value
        },
        None => value,
    }
}

/// A header value as shown: `base64:<text>` is decoded when the text is
/// valid base64 of UTF-8, anything else is kept as it is.
pub open spec fn decode_header_value_v(value: Seq<char>) -> Seq<char> {
    match base64_payload_v(value) {
        Some(payload) => header_value_from_v(value, base64_standard_decoding(payload)),
        None => value,
    }
}

/// The base64 payload of a header value (see [`base64_payload_v`]).
pub fn base64_payload(value: &str) -> (r: Option<String>)
    ensures
        match r {
            Some(p) => base64_payload_v(value@) == Some(p@),
            None => base64_payload_v(value@) is None,
        },
{
    proof {
        reveal_strlit("base64:");
    }
    if starts_with_str(value, "base64:") {
        let cs = to_chars(value);
        let rest = from_chars(slice_range(cs.as_slice(), 7, cs.len()).as_slice());
        Some(trim_str(rest.as_str()))
    } else {
        None
    }
}

/// A header value as shown, given what decoding its base64 payload gave (see
/// [`header_value_from_v`]).
pub fn header_value_from(value: &str, decoded: Option<Vec<u8>>) -> (r: String)
    ensures
        r@ == header_value_from_v(
            value@,
            match decoded {
                Some(b) => Some(b@),
                None => None,
            },
        ),
{
    if let Some(bytes) = decoded {
        if let Some(s) = utf8_text(bytes) {
            return s;
        }
    }
    own(value)
}

pub fn decode_header_value(value: &str) -> (r: String)
    ensures
        r@ == decode_header_value_v(value@),
{
    match base64_payload(value) {
        Some(payload) => header_value_from(value, base64_decode(payload.as_str())),
        None => own(value),
    }
}

/// The position of the first `c` in `s`, or `-1`.
pub open spec fn first_index(s: Seq<char>, c: char) -> int
    decreases s.len(),
{
    if s.len() == 0 {
        -1
    } else {
        let r = first_index(s.drop_last(), c);
        if r >= 0 {
            r
        } else if s.last() == c {
            s.len() - 1
        } else {
            -1
        }
    }
}

pub proof fn lemma_first_index(s: Seq<char>, c: char)
    ensures
        -1 <= first_index(s, c) < s.len(),
        first_index(s, c) >= 0 ==> s[first_index(s, c)] == c,
    decreases s.len(),
{
    if s.len() > 0 {
        lemma_first_index(s.drop_last(), c);
    }
}

/// The position of the first `c` in `s`.
pub fn find_char(s: &[char], c: char) -> (r: Option<usize>)
    ensures
        match r {
            Some(i) => i < s.len() && first_index(s@, c) == i as int,
            None => first_index(s@, c) == -1,
        },
{
    let mut i: usize = 0;
    while i < s.len()
        invariant
            i <= s.len(),
            first_index(s@.subrange(0, i as int), c) == -1,
        decreases s.len() - i,
    {
        proof {
            assert(s@.subrange(0, i + 1).drop_last() =~= s@.subrange(0, i as int));
        }
        if s[i] == c {
            proof {
                lemma_first_index_prefix(s@, c, i as int + 1);
            }
            return Some(i);
        }
        i += 1;
    }
    assert(s@.subrange(0, s.len() as int) =~= s@);
    None
}

pub proof fn lemma_first_index_prefix(s: Seq<char>, c: char, k: int)
    requires
        0 <= k <= s.len(),
        first_index(s.subrange(0, k), c) >= 0,
    ensures
        first_index(s, c) == first_index(s.subrange(0, k), c),
    decreases s.len() - k,
{
    if k < s.len() {
        assert(s.subrange(0, k + 1).drop_last() =~= s.subrange(0, k));
        lemma_first_index_prefix(s, c, k + 1);
    } else {
        assert(s.subrange(0, k) =~= s);
    }
}

/// Subscription usage counters: upload, download, total, expire.
pub type Usage = (int, int, int, int);

/// One `key=value` part of a `subscription-userinfo` header applied to the
/// counters read so far.
pub open spec fn userinfo_step(acc: Usage, part: Seq<char>) -> Usage {
    let p = trim(part);
    let i = first_index(p, '=');
    if i < 0 {
        acc
    } else {
        let key = trim(p.subrange(0, i));
        let val = match parse_i64(trim(p.subrange(i + 1, p.len() as int))) {
            Some(n) => n,
            None => 0,
        };
        if key == "upload"@ {
            (val, acc.1, acc.2, acc.3)
        } else if key == "download"@ {
            (acc.0, val, acc.2, acc.3)
        } else if key == "total"@ {
            (acc.0, acc.1, val, acc.3)
        } else if key == "expire"@ {
            (acc.0, acc.1, acc.2, val)
        } else {
            acc
        }
    }
}

pub open spec fn userinfo_fold(parts: Seq<Seq<char>>) -> Usage
    decreases parts.len(),
{
    if parts.len() == 0 {
        (0, 0, 0, 0)
    } else {
        userinfo_step(userinfo_fold(parts.drop_last()), parts.last())
    }
}

/// The counters of a `subscription-userinfo` header
/// (`upload=…; download=…; total=…; expire=…`); a missing or unreadable
/// number counts as 0, a later part overrides an earlier one.
pub open spec fn userinfo_v(info: Seq<char>) -> Usage {
    userinfo_fold(split_char(info, ';'))
}

/// The usage object `{ upload, download, total, expire }`.
pub open spec fn usage_json(u: Usage) -> JsonV {
    JsonV::Object(
        seq![
            ("upload"@, JsonV::Int(u.0)),
            ("download"@, JsonV::Int(u.1)),
            ("total"@, JsonV::Int(u.2)),
            ("expire"@, JsonV::Int(u.3)),
        ],
    )
}

fn userinfo_part(acc: (i64, i64, i64, i64), part: &str) -> (r: (i64, i64, i64, i64))
    ensures
        (r.0 as int, r.1 as int, r.2 as int, r.3 as int) == userinfo_step(
            (acc.0 as int, acc.1 as int, acc.2 as int, acc.3 as int),
            part@,
        ),
{
    proof {
        reveal_strlit("upload");
        reveal_strlit("download");
        reveal_strlit("total");
        reveal_strlit("expire");
    }
    let p = trim_str(part);
    let cs = to_chars(p.as_str());
    match find_char(cs.as_slice(), '=') {
        None => acc,
        Some(i) => {
            let k = from_chars(slice_range(cs.as_slice(), 0, i).as_slice());
            let v = from_chars(slice_range(cs.as_slice(), i + 1, cs.len()).as_slice());
            let key = trim_str(k.as_str());
            let vt = trim_str(v.as_str());
            let val: i64 = match parse_i64_str(vt.as_str()) {
                Some(n) => n,
                None => 0,
            };
            if crate::text::str_eq(key.as_str(), "upload") {
                (val, acc.1, acc.2, acc.3)
            } else if crate::text::str_eq(key.as_str(), "download") {
                (acc.0, val, acc.2, acc.3)
            } else if crate::text::str_eq(key.as_str(), "total") {
                (acc.0, acc.1, val, acc.3)
            } else if crate::text::str_eq(key.as_str(), "expire") {
                (acc.0, acc.1, acc.2, val)
            } else {
                acc
            }
        },
    }
}

/// Reads a `subscription-userinfo` header into `{ upload, download, total, expire }`.
pub fn parse_subscription_userinfo(info: &str) -> (r: Json)
    ensures
        r@ == usage_json(userinfo_v(info@)),
{
    let parts = split_str(info, ';');
    let ghost pv = parts@.map_values(|p: String| p@);
    let mut acc: (i64, i64, i64, i64) = (0, 0, 0, 0);
    let mut i: usize = 0;
    proof {
        assert(pv.subrange(0, 0) =~= Seq::<Seq<char>>::empty());
    }
    while i < parts.len()
        invariant
            i <= parts.len(),
            pv == parts@.map_values(|p: String| p@),
            (acc.0 as int, acc.1 as int, acc.2 as int, acc.3 as int) == userinfo_fold(pv.subrange(0, i as int)),
        decreases parts.len() - i,
    {
        proof {
            assert(pv.subrange(0, i + 1).drop_last() =~= pv.subrange(0, i as int));
            assert(pv.subrange(0, i + 1).last() == parts@[i as int]@);
        }
        acc = userinfo_part(acc, parts[i].as_str());
        i += 1;
    }
    assert(pv.subrange(0, parts.len() as int) =~= pv);
    let e = with_member(Vec::new(), "upload", Json::Int(acc.0 as i128));
    let e = with_member(e, "download", Json::Int(acc.1 as i128));
    let e = with_member(e, "total", Json::Int(acc.2 as i128));
    let e = with_member(e, "expire", Json::Int(acc.3 as i128));
    proof {
        assert(view_entries(Seq::<(String, Json)>::empty()) =~= Seq::<(Seq<char>, JsonV)>::empty());
        assert(view_entries(e@) =~= usage_json(userinfo_v(info@))->Object_0);
    }
    Json::Object(e)
}

} // verus!

verus! {

/// Every member of `m` inserted into `e`, in order.
pub open spec fn insert_all(e: Entries, m: Entries) -> Entries
    decreases m.len(),
{
    if m.len() == 0 {
        e
    } else {
        obj_insert(insert_all(e, m.drop_last()), m.last().0, m.last().1)
    }
}

/// `e` with every member of `m` inserted, in order.
pub fn insert_members(e: Vec<(String, Json)>, m: &Vec<(String, Json)>) -> (r: Vec<(String, Json)>)
    ensures
        view_entries(r@) == insert_all(view_entries(e@), view_entries(m@)),
{
    let ghost ev = view_entries(e@);
    let ghost mv = view_entries(m@);
    proof {
        crate::json::lemma_view_entries_len(m@);
        assert(mv.subrange(0, 0) =~= Seq::<(Seq<char>, JsonV)>::empty());
    }
    let mut cur = e;
    let mut i: usize = 0;
    while i < m.len()
        invariant
            i <= m.len(),
            mv == view_entries(m@),
            mv.len() == m.len(),
            view_entries(cur@) == insert_all(ev, mv.subrange(0, i as int)),
        decreases m.len() - i,
    {
        proof {
            crate::json::lemma_view_entries_index(m@, i as int);
            assert(mv.subrange(0, i + 1).drop_last() =~= mv.subrange(0, i as int));
        }
        cur = insert_key(cur, m[i].0.clone(), m[i].1.duplicate());
        i += 1;
    }
    assert(mv.subrange(0, m.len() as int) =~= mv);
    cur
}

/// `profile '<id>' not found`.
pub open spec fn not_found_msg(id: Seq<char>) -> Seq<char> {
    "profile '"@ + id + "' not found"@
}

pub fn not_found(id: &str) -> (r: String)
    ensures
        r@ == not_found_msg(id@),
{
    let mut s = own("profile '");
    s.push_str(id);
    s.push_str("' not found");
    s
}

/// The profile list of `profile.yaml`, when it is an array.
pub open spec fn items_of(cfg: JsonV) -> Option<Seq<JsonV>> {
    as_array(get(cfg, "items"@))
}

/// The id of the active profile (empty when unset).
pub open spec fn current_id(cfg: JsonV) -> Seq<char> {
    field_text(cfg, "current"@)
}

/// The config with its `items` replaced.
pub open spec fn with_items(cfg: JsonV, items: Seq<JsonV>) -> JsonV {
    JsonV::Object(obj_insert(cfg->Object_0, "items"@, JsonV::Array(items)))
}

/// What registering a profile entry `meta` under `id` makes of the profile
/// config, and whether the core must reload (the entry is active and was
/// updated, or just became active); `None` when the config holds no list.
pub open spec fn register_v(cfg: JsonV, meta: JsonV, id: Seq<char>) -> Option<(JsonV, bool)> {
    match items_of(cfg) {
        None => None,
        Some(items) => {
            let idx = item_index(items, id);
            if idx >= 0 {
                let ex = items[idx];
                let ex2 = match (ex, meta) {
                    (JsonV::Object(x), JsonV::Object(m)) => JsonV::Object(insert_all(x, m)),
                    _ => ex,
                };
                let cfg2 = with_items(cfg, items.update(idx, ex2));
                Some((cfg2, current_id(cfg2) == id))
            } else {
                let cfg1 = with_items(cfg, items.push(meta));
                if current_id(cfg).len() == 0 {
                    Some((JsonV::Object(obj_insert(cfg1->Object_0, "current"@, JsonV::Str(id))), true))
                } else {
                    Some((cfg1, false))
                }
            }
        },
    }
}

/// The config's object entries, when it is an object.
fn entries_of(cfg: Json) -> (r: Option<Vec<(String, Json)>>)
    ensures
        match r {
            Some(e) => cfg@ == JsonV::Object(view_entries(e@)),
            None => !(cfg@ is Object),
        },
{
    match cfg {
        Json::Object(e) => Some(e),
        _ => None,
    }
}

/// A copy of the profile list, when `cfg` has one.
fn items_copy(cfg: &Json) -> (r: Option<Vec<Json>>)
    ensures
        match r {
            Some(v) => items_of(cfg@) == Some(view_list(v@)),
            None => items_of(cfg@) is None,
        },
{
    match cfg.get("items") {
        Some(v) => match v.as_array() {
            Some(a) => Some(duplicate_list(a)),
            None => None,
        },
        None => None,
    }
}

pub proof fn lemma_view_list_update(s: Seq<Json>, i: int, x: Json)
    requires
        0 <= i < s.len(),
    ensures
        view_list(s.update(i, x)) == view_list(s).update(i, x@),
{
    let t = s.update(i, x);
    lemma_view_list_len(s);
    lemma_view_list_len(t);
    assert forall|j: int| 0 <= j < s.len() implies view_list(t)[j] == view_list(s).update(i, x@)[j] by {
        lemma_view_list_index(s, j);
        lemma_view_list_index(t, j);
    }
    assert(view_list(t) =~= view_list(s).update(i, x@));
}

/// Records the profile entry `meta` under `id` in the profile config: an
/// existing entry with that id takes `meta`'s members, a new one is appended
/// and becomes active when none is. Returns the new config and whether the
/// core must reload.
pub fn register_profile(cfg: Json, meta: Json, id: &str) -> (r: Result<(Json, bool), String>)
    requires
        cfg@ is Object || cfg@ is Null,
    ensures
        match r {
            Ok((c, reload)) => register_v(cfg@, meta@, id@) == Some((c@, reload)),
            Err(e) => register_v(cfg@, meta@, id@) is None && e@ == "invalid profile config"@,
        },
{
    let items = match items_copy(&cfg) {
        Some(v) => v,
        None => return Err(own("invalid profile config")),
    };
    let ghost cfg_v = cfg@;
    let ghost iv = view_list(items@);
    let ce = match entries_of(cfg) {
        Some(e) => e,
        None => return Err(own("invalid profile config")),
    };
    proof {
        lemma_view_list_len(items@);
    }
    match find_item(&items, id) {
        Some(idx) => {
            proof {
                lemma_view_list_index(items@, idx as int);
            }
            let ex2 = match (&items[idx], &meta) {
                (Json::Object(x), Json::Object(m)) => Json::Object(insert_members(crate::json::duplicate_entries(x), m)),
                _ => items[idx].duplicate(),
            };
            let mut items2 = items;
            proof {
                lemma_view_list_update(items2@, idx as int, ex2);
            }
            items2.set(idx, ex2);
            let ce2 = insert_key(ce, own("items"), Json::Array(items2));
            let cfg2 = Json::Object(ce2);
            let cur = text_field(&cfg2, "current");
            let reload = crate::text::str_eq(cur.as_str(), id);
            Ok((cfg2, reload))
        },
        None => {
            let was_empty = {
                let cur = text_field(&Json::Object(crate::json::duplicate_entries(&ce)), "current");
                cur.as_str().is_empty()
            };
            let mut items2 = items;
            proof {
                lemma_view_list_push(items2@, meta);
            }
            items2.push(meta);
            let ce1 = insert_key(ce, own("items"), Json::Array(items2));
            if was_empty {
                let ce2 = insert_key(ce1, own("current"), Json::Str(own(id)));
                Ok((Json::Object(ce2), true))
            } else {
                Ok((Json::Object(ce1), false))
            }
        },
    }
}

} // verus!

verus! {

/// The profile entry with id `id` (the first one), if any.
pub open spec fn item_with_id(cfg: JsonV, id: Seq<char>) -> Option<JsonV> {
    match items_of(cfg) {
        Some(items) => if item_index(items, id) >= 0 {
            Some(items[item_index(items, id)])
        } else {
            None
        },
        None => None,
    }
}

/// Looks up the profile entry with id `id`.
pub fn get_profile_item(cfg: &Json, id: &str) -> (r: Result<Json, String>)
    ensures
        match r {
            Ok(x) => item_with_id(cfg@, id@) == Some(x@),
            Err(e) => item_with_id(cfg@, id@) is None && e@ == not_found_msg(id@),
        },
{
    match cfg.get("items") {
        Some(v) => match v.as_array() {
            Some(a) => match find_item(a, id) {
                Some(i) => {
                    proof {
                        lemma_view_list_index(a@, i as int);
                    }
                    Ok(a[i].duplicate())
                },
                None => Err(not_found(id)),
            },
            None => Err(not_found(id)),
        },
        None => Err(not_found(id)),
    }
}

/// The active profile's entry; `null` when no profile is active.
pub fn get_current_profile_item(cfg: &Json) -> (r: Result<Json, String>)
    ensures
        current_id(cfg@).len() == 0 ==> (r matches Ok(x) && x@ == JsonV::Null),
        current_id(cfg@).len() > 0 ==> match r {
            Ok(x) => item_with_id(cfg@, current_id(cfg@)) == Some(x@),
            Err(e) => item_with_id(cfg@, current_id(cfg@)) is None && e@ == not_found_msg(
                current_id(cfg@),
            ),
        },
{
    let cur = text_field(cfg, "current");
    if cur.as_str().is_empty() {
        return Ok(Json::Null);
    }
    get_profile_item(cfg, cur.as_str())
}

/// The active profile's id, for reading its file.
pub fn require_current_id(cfg: &Json) -> (r: Result<String, String>)
    ensures
        match r {
            Ok(id) => id@ == current_id(cfg@) && id@.len() > 0,
            Err(e) => current_id(cfg@).len() == 0 && e@ == "no current profile set"@,
        },
{
    let cur = text_field(cfg, "current");
    if cur.as_str().is_empty() {
        Err(own("no current profile set"))
    } else {
        Ok(cur)
    }
}

/// Replaces the entry whose id is the entry's own `id`.
pub open spec fn update_v(cfg: JsonV, item: JsonV) -> Result<JsonV, Seq<char>> {
    match as_str(get(item, "id"@)) {
        None => Err("item missing id"@),
        Some(id) => match items_of(cfg) {
            None => Err("invalid profile config"@),
            Some(items) => if item_index(items, id) >= 0 {
                Ok(with_items(cfg, items.update(item_index(items, id), item)))
            } else {
                Err(not_found_msg(id))
            },
        },
    }
}

pub fn update_profile_item(cfg: Json, item: Json) -> (r: Result<Json, String>)
    requires
        cfg@ is Object || cfg@ is Null,
    ensures
        match r {
            Ok(c) => update_v(cfg@, item@) == Ok::<JsonV, Seq<char>>(c@),
            Err(e) => update_v(cfg@, item@) == Err::<JsonV, Seq<char>>(e@),
        },
{
    let id = match item.get("id") {
        Some(v) => match v.as_str() {
            Some(s) => own(s),
            None => return Err(own("item missing id")),
        },
        None => return Err(own("item missing id")),
    };
    let items = match items_copy(&cfg) {
        Some(v) => v,
        None => return Err(own("invalid profile config")),
    };
    let ce = match entries_of(cfg) {
        Some(e) => e,
        None => return Err(own("invalid profile config")),
    };
    match find_item(&items, id.as_str()) {
        Some(idx) => {
            let mut items2 = items;
            proof {
                lemma_view_list_update(items2@, idx as int, item);
            }
            items2.set(idx, item);
            Ok(Json::Object(insert_key(ce, own("items"), Json::Array(items2))))
        },
        None => Err(not_found(id.as_str())),
    }
}

/// The items whose `id` is not `id`, in order.
pub open spec fn without_id(items: Seq<JsonV>, id: Seq<char>) -> Seq<JsonV>
    decreases items.len(),
{
    if items.len() == 0 {
        items
    } else {
        let rest = without_id(items.drop_last(), id);
        if as_str(get(items.last(), "id"@)) == Some(id) {
            rest
        } else {
            rest.push(items.last())
        }
    }
}

pub open spec fn remove_v(cfg: JsonV, id: Seq<char>) -> Option<JsonV> {
    match items_of(cfg) {
        None => None,
        Some(items) => Some(with_items(cfg, without_id(items, id))),
    }
}

/// Drops every profile entry with id `id`.
pub fn remove_profile_item(cfg: Json, id: &str) -> (r: Result<Json, String>)
    requires
        cfg@ is Object || cfg@ is Null,
    ensures
        match r {
            Ok(c) => remove_v(cfg@, id@) == Some(c@),
            Err(e) => remove_v(cfg@, id@) is None && e@ == "invalid profile config"@,
        },
{
    let items = match items_copy(&cfg) {
        Some(v) => v,
        None => return Err(own("invalid profile config")),
    };
    let ce = match entries_of(cfg) {
        Some(e) => e,
        None => return Err(own("invalid profile config")),
    };
    let ghost iv = view_list(items@);
    proof {
        lemma_view_list_len(items@);
        assert(view_list(Seq::<Json>::empty()) =~= Seq::<JsonV>::empty());
    }
    let mut kept: Vec<Json> = Vec::new();
    let mut i: usize = 0;
    while i < items.len()
        invariant
            i <= items.len(),
            iv == view_list(items@),
            iv.len() == items.len(),
            view_list(kept@) == without_id(iv.subrange(0, i as int), id@),
        decreases items.len() - i,
    {
        proof {
            lemma_view_list_index(items@, i as int);
            assert(iv.subrange(0, i + 1).drop_last() =~= iv.subrange(0, i as int));
        }
        let same = match items[i].get("id") {
            Some(v) => match v.as_str() {
                Some(s) => crate::text::str_eq(s, id),
                None => false,
            },
            None => false,
        };
        if !same {
            let x = items[i].duplicate();
            proof {
                lemma_view_list_push(kept@, x);
            }
            kept.push(x);
        }
        i += 1;
    }
    assert(iv.subrange(0, items.len() as int) =~= iv);
    Ok(Json::Object(insert_key(ce, own("items"), Json::Array(kept))))
}

/// Makes the profile `id` the active one, when the list has it.
pub open spec fn change_current_v(cfg: JsonV, id: Seq<char>) -> Option<JsonV> {
    if item_with_id(cfg, id) is Some {
        Some(JsonV::Object(obj_insert(cfg->Object_0, "current"@, JsonV::Str(id))))
    } else {
        None
    }
}

/// Makes the profile `id` the active one; a list (or any document) without
/// it answers that the profile was not found.
pub fn change_current_profile(cfg: Json, id: &str) -> (r: Result<Json, String>)
    ensures
        match r {
            Ok(c) => change_current_v(cfg@, id@) == Some(c@),
            Err(e) => change_current_v(cfg@, id@) is None && e@ == not_found_msg(id@),
        },
{
    let exists = match get_profile_item(&cfg, id) {
        Ok(_) => true,
        Err(_) => false,
    };
    if !exists {
        return Err(not_found(id));
    }
    let ce = match entries_of(cfg) {
        Some(e) => e,
        None => return Err(not_found(id)),
    };
    Ok(Json::Object(insert_key(ce, own("current"), Json::Str(own(id)))))
}

} // verus!

verus! {

pub open spec fn has_id(x: JsonV, id: Seq<char>) -> bool {
    as_str(get(x, "id"@)) == Some(id)
}

pub proof fn lemma_item_index_char(a: Seq<JsonV>, id: Seq<char>)
    ensures
        -1 <= item_index(a, id) < a.len(),
        item_index(a, id) >= 0 ==> has_id(a[item_index(a, id)], id) && forall|j: int|
            0 <= j < item_index(a, id) ==> !has_id(#[trigger] a[j], id),
        item_index(a, id) < 0 ==> forall|j: int| 0 <= j < a.len() ==> !has_id(#[trigger] a[j], id),
    decreases a.len(),
{
    if a.len() > 0 {
        let init = a.drop_last();
        lemma_item_index_char(init, id);
        assert forall|j: int| 0 <= j < init.len() implies a[j] == init[j] by {}
    }
}

pub proof fn lemma_item_index_first(a: Seq<JsonV>, id: Seq<char>, k: int)
    requires
        0 <= k < a.len(),
        has_id(a[k], id),
        forall|j: int| 0 <= j < k ==> !has_id(#[trigger] a[j], id),
    ensures
        item_index(a, id) == k,
{
    lemma_item_index_char(a, id);
    let r = item_index(a, id);
    if r >= 0 && r < k {
        assert(!has_id(a[r], id));
    }
    if r > k {
        assert(!has_id(a[k], id));
    }
    if r < 0 {
        assert(!has_id(a[k], id));
    }
}

proof fn lemma_items_current_differ()
    ensures
        "items"@ != "current"@,
        "current"@ != "items"@,
{
    reveal_strlit("items");
    reveal_strlit("current");
    assert("items"@.len() != "current"@.len());
}

/// Law: after making a listed profile active, the active profile is that one
/// and the active entry is the entry with its id.
pub proof fn law_change_current_then_current_item(cfg: JsonV, id: Seq<char>)
    requires
        change_current_v(cfg, id) is Some,
    ensures
        current_id(change_current_v(cfg, id)->0) == id,
        item_with_id(change_current_v(cfg, id)->0, id) == item_with_id(cfg, id),
        item_with_id(change_current_v(cfg, id)->0, id) is Some,
{
    let c = change_current_v(cfg, id)->0;
    lemma_items_current_differ();
    crate::merge::lemma_obj_get_insert(cfg->Object_0, "current"@, JsonV::Str(id), "current"@);
    crate::merge::lemma_obj_get_insert(cfg->Object_0, "current"@, JsonV::Str(id), "items"@);
}

/// The key a `key=value` part names (trimmed), when it has a `=`.
pub open spec fn userinfo_key(part: Seq<char>) -> Option<Seq<char>> {
    let p = trim(part);
    let i = first_index(p, '=');
    if i < 0 {
        None
    } else {
        Some(trim(p.subrange(0, i)))
    }
}

/// The number a `key=value` part gives (0 when unreadable).
pub open spec fn userinfo_value(part: Seq<char>) -> int {
    let p = trim(part);
    let i = first_index(p, '=');
    match parse_i64(trim(p.subrange(i + 1, p.len() as int))) {
        Some(n) => n,
        None => 0,
    }
}

/// The counter of the usage that `field` names.
pub open spec fn usage_field(u: Usage, field: Seq<char>) -> int {
    if field == "upload"@ {
        u.0
    } else if field == "download"@ {
        u.1
    } else if field == "total"@ {
        u.2
    } else {
        u.3
    }
}

proof fn lemma_usage_names_differ()
    ensures
        "upload"@ != "download"@,
        "upload"@ != "total"@,
        "upload"@ != "expire"@,
        "download"@ != "total"@,
        "download"@ != "expire"@,
        "total"@ != "expire"@,
{
    reveal_strlit("upload");
    reveal_strlit("download");
    reveal_strlit("total");
    reveal_strlit("expire");
    assert("upload"@[0] != "expire"@[0]);
    assert("download"@.len() != "total"@.len());
}

/// The counter `field` after reading `parts` in turn: what the last part
/// naming it gives, else 0.
proof fn lemma_userinfo_fold_last(parts: Seq<Seq<char>>, field: Seq<char>, j: int)
    requires
        field == "upload"@ || field == "download"@ || field == "total"@ || field == "expire"@,
    ensures
        (forall|l: int| 0 <= l < parts.len() ==> userinfo_key(#[trigger] parts[l]) != Some(field)) ==> usage_field(
            userinfo_fold(parts),
            field,
        ) == 0,
        (0 <= j < parts.len() && userinfo_key(parts[j]) == Some(field) && forall|l: int|
            j < l < parts.len() ==> userinfo_key(#[trigger] parts[l]) != Some(field)) ==> usage_field(
            userinfo_fold(parts),
            field,
        ) == userinfo_value(parts[j]),
    decreases parts.len(),
{
    lemma_usage_names_differ();
    if parts.len() > 0 {
        let rest = parts.drop_last();
        let last = parts.last();
        assert(parts[parts.len() - 1] == last);
        if (forall|l: int| 0 <= l < parts.len() ==> userinfo_key(#[trigger] parts[l]) != Some(field)) {
            assert forall|l: int| 0 <= l < rest.len() implies userinfo_key(#[trigger] rest[l]) != Some(field) by {
                assert(rest[l] == parts[l]);
            }
            lemma_userinfo_fold_last(rest, field, j);
        }
        if 0 <= j < parts.len() - 1 && userinfo_key(parts[j]) == Some(field) && (forall|l: int|
            j < l < parts.len() ==> userinfo_key(#[trigger] parts[l]) != Some(field)) {
            assert forall|l: int| j < l < rest.len() implies userinfo_key(#[trigger] rest[l]) != Some(field) by {
                assert(rest[l] == parts[l]);
            }
            assert(rest[j] == parts[j]);
            lemma_userinfo_fold_last(rest, field, j);
        }
    }
}

/// Law: each counter of a `subscription-userinfo` header is the number the
/// last `;`-separated part naming it gives (a later part overrides an earlier
/// one); a counter no part names is 0.
pub proof fn law_userinfo_last_part_wins(info: Seq<char>, field: Seq<char>, j: int)
    requires
        field == "upload"@ || field == "download"@ || field == "total"@ || field == "expire"@,
    ensures
        ({
            let parts = split_char(info, ';');
            &&& (forall|l: int| 0 <= l < parts.len() ==> userinfo_key(#[trigger] parts[l]) != Some(field))
                ==> usage_field(userinfo_v(info), field) == 0
            &&& (0 <= j < parts.len() && userinfo_key(parts[j]) == Some(field) && forall|l: int|
                j < l < parts.len() ==> userinfo_key(#[trigger] parts[l]) != Some(field)) ==> usage_field(
                userinfo_v(info),
                field,
            ) == userinfo_value(parts[j])
        }),
{
    lemma_userinfo_fold_last(split_char(info, ';'), field, j);
}

/// Law: after replacing a profile entry, looking its id up gives the new entry.
pub proof fn law_update_then_get(cfg: JsonV, item: JsonV)
    requires
        update_v(cfg, item) is Ok,
    ensures
        item_with_id(update_v(cfg, item)->Ok_0, as_str(get(item, "id"@))->0) == Some(item),
{
    let id = as_str(get(item, "id"@))->0;
    let items = items_of(cfg)->0;
    let idx = item_index(items, id);
    let items2 = items.update(idx, item);
    lemma_items_current_differ();
    crate::merge::lemma_obj_get_insert(cfg->Object_0, "items"@, JsonV::Array(items2), "items"@);
    lemma_item_index_char(items, id);
    assert forall|j: int| 0 <= j < idx implies !has_id(#[trigger] items2[j], id) by {
        assert(items2[j] == items[j]);
    }
    lemma_item_index_first(items2, id, idx);
}

pub proof fn lemma_without_id(items: Seq<JsonV>, id: Seq<char>)
    ensures
        forall|j: int| 0 <= j < without_id(items, id).len() ==> !has_id(#[trigger] without_id(items, id)[j], id),
    decreases items.len(),
{
    if items.len() > 0 {
        let rest = without_id(items.drop_last(), id);
        lemma_without_id(items.drop_last(), id);
        let w = without_id(items, id);
        assert forall|j: int| 0 <= j < w.len() implies !has_id(#[trigger] w[j], id) by {
            if j < rest.len() {
                assert(w[j] == rest[j]);
            }
        }
    }
}

/// The entries `without_id` keeps are those whose id is not `id`.
proof fn lemma_without_id_filter(items: Seq<JsonV>, id: Seq<char>)
    ensures
        without_id(items, id) == items.filter(|x: JsonV| as_str(get(x, "id"@)) != Some(id)),
    decreases items.len(),
{
    reveal(Seq::filter);
    if items.len() > 0 {
        lemma_without_id_filter(items.drop_last(), id);
    }
}

/// Law: removing a profile from a config that holds a list keeps exactly the
/// entries whose id differs from the removed one, in their order, and leaves
/// every other key (the active profile among them) as it was; a config
/// without a list is refused.
pub proof fn law_remove_keeps_the_others(cfg: JsonV, id: Seq<char>, k: Seq<char>)
    ensures
        (remove_v(cfg, id) is Some) <==> (items_of(cfg) is Some),
        items_of(cfg) is Some ==> items_of(remove_v(cfg, id)->0) == Some(
            items_of(cfg)->0.filter(|x: JsonV| as_str(get(x, "id"@)) != Some(id)),
        ),
        (items_of(cfg) is Some && k != "items"@) ==> get(remove_v(cfg, id)->0, k) == get(cfg, k),
{
    if items_of(cfg) is Some {
        let items = items_of(cfg)->0;
        let kept = without_id(items, id);
        lemma_without_id_filter(items, id);
        crate::merge::lemma_obj_get_insert(cfg->Object_0, "items"@, JsonV::Array(kept), "items"@);
        crate::merge::lemma_obj_get_insert(cfg->Object_0, "items"@, JsonV::Array(kept), k);
    }
}

/// Law: after removing a profile, no entry with its id is left.
pub proof fn law_remove_then_absent(cfg: JsonV, id: Seq<char>)
    requires
        remove_v(cfg, id) is Some,
    ensures
        item_with_id(remove_v(cfg, id)->0, id) is None,
{
    let items = items_of(cfg)->0;
    let kept = without_id(items, id);
    lemma_items_current_differ();
    crate::merge::lemma_obj_get_insert(cfg->Object_0, "items"@, JsonV::Array(kept), "items"@);
    lemma_without_id(items, id);
    lemma_item_index_char(kept, id);
    if item_index(kept, id) >= 0 {
        assert(!has_id(kept[item_index(kept, id)], id));
    }
}

/// Law: registering a new profile while none is active makes it the active
/// one, findable by its id, and asks for a reload.
pub proof fn law_register_first_becomes_current(cfg: JsonV, meta: JsonV, id: Seq<char>)
    requires
        items_of(cfg) is Some,
        item_with_id(cfg, id) is None,
        current_id(cfg).len() == 0,
        has_id(meta, id),
    ensures
        register_v(cfg, meta, id) is Some,
        current_id((register_v(cfg, meta, id)->0).0) == id,
        item_with_id((register_v(cfg, meta, id)->0).0, id) == Some(meta),
        (register_v(cfg, meta, id)->0).1,
{
    let items = items_of(cfg)->0;
    let items2 = items.push(meta);
    let ce1 = obj_insert(cfg->Object_0, "items"@, JsonV::Array(items2));
    lemma_items_current_differ();
    crate::merge::lemma_obj_get_insert(cfg->Object_0, "items"@, JsonV::Array(items2), "items"@);
    crate::merge::lemma_obj_get_insert(ce1, "current"@, JsonV::Str(id), "current"@);
    crate::merge::lemma_obj_get_insert(ce1, "current"@, JsonV::Str(id), "items"@);
    lemma_item_index_char(items, id);
    assert forall|j: int| 0 <= j < items.len() implies !has_id(#[trigger] items2[j], id) by {
        assert(items2[j] == items[j]);
    }
    lemma_item_index_first(items2, id, items.len() as int);
}

} // verus!

verus! {

/// The id a profile is stored under: its own non-empty `id`, else the
/// import time in milliseconds.
pub open spec fn profile_id_v(item: JsonV, now_ms: i64) -> Seq<char> {
    match as_str(get(item, "id"@)) {
        Some(s) => if s.len() > 0 {
            s
        } else {
            int_text(now_ms as int)
        },
        None => int_text(now_ms as int),
    }
}

pub fn profile_id(item: &Json, now_ms: i64) -> (r: String)
    ensures
        r@ == profile_id_v(item@, now_ms),
{
    match item.get("id") {
        Some(v) => match v.as_str() {
            Some(s) => if !s.is_empty() {
                own(s)
            } else {
                i64_text(now_ms)
            },
            None => i64_text(now_ms),
        },
        None => i64_text(now_ms),
    }
}

/// The members of an object; none for `null`.
pub open spec fn members(j: JsonV) -> Entries {
    match j {
        JsonV::Object(e) => e,
        _ => Seq::empty(),
    }
}

/// The stored entry of an imported profile: the item with its `id` and its
/// `updated` time set.
pub open spec fn new_meta_v(item: JsonV, id: Seq<char>, now_ms: i64) -> JsonV {
    JsonV::Object(
        obj_insert(
            obj_insert(members(item), "id"@, JsonV::Str(id)),
            "updated"@,
            JsonV::Int(now_ms as int),
        ),
    )
}

pub fn new_profile_meta(item: &Json, id: &str, now_ms: i64) -> (r: Json)
    requires
        item@ is Object || item@ is Null,
    ensures
        r@ == new_meta_v(item@, id@, now_ms),
{
    let e = match item {
        Json::Object(e) => crate::json::duplicate_entries(e),
        _ => {
            let v: Vec<(String, Json)> = Vec::new();
            assert(view_entries(v@) =~= Seq::<(Seq<char>, JsonV)>::empty());
            v
        },
    };
    let e = insert_key(e, own("id"), Json::Str(own(id)));
    let e = insert_key(e, own("updated"), Json::Int(now_ms as i128));
    Json::Object(e)
}

/// The value of the first header named `name`.
pub open spec fn header_get(hs: Seq<(Seq<char>, Seq<char>)>, name: Seq<char>) -> Option<Seq<char>>
    decreases hs.len(),
{
    if hs.len() == 0 {
        None
    } else {
        match header_get(hs.drop_last(), name) {
            Some(v) => Some(v),
            None => if hs.last().0 == name {
                Some(hs.last().1)
            } else {
                None
            },
        }
    }
}

pub open spec fn headers_view(hs: Seq<(String, String)>) -> Seq<(Seq<char>, Seq<char>)> {
    hs.map_values(|h: (String, String)| (h.0@, h.1@))
}

/// The value of the first header named `name`.
pub fn find_header<'a>(hs: &'a Vec<(String, String)>, name: &str) -> (r: Option<&'a String>)
    ensures
        match r {
            Some(v) => header_get(headers_view(hs@), name@) == Some(v@),
            None => header_get(headers_view(hs@), name@) is None,
        },
{
    let ghost hv = headers_view(hs@);
    let mut i: usize = 0;
    while i < hs.len()
        invariant
            i <= hs.len(),
            hv == headers_view(hs@),
            header_get(hv.subrange(0, i as int), name@) is None,
        decreases hs.len() - i,
    {
        proof {
            assert(hv.subrange(0, i + 1).drop_last() =~= hv.subrange(0, i as int));
        }
        if crate::text::str_eq(hs[i].0.as_str(), name) {
            proof {
                lemma_header_get_prefix(hv, name@, i as int + 1);
            }
            return Some(&hs[i].1);
        }
        i += 1;
    }
    assert(hv.subrange(0, hs.len() as int) =~= hv);
    None
}

pub proof fn lemma_header_get_prefix(hv: Seq<(Seq<char>, Seq<char>)>, name: Seq<char>, k: int)
    requires
        0 <= k <= hv.len(),
        header_get(hv.subrange(0, k), name) is Some,
    ensures
        header_get(hv, name) == header_get(hv.subrange(0, k), name),
    decreases hv.len() - k,
{
    if k < hv.len() {
        assert(hv.subrange(0, k + 1).drop_last() =~= hv.subrange(0, k));
        lemma_header_get_prefix(hv, name, k + 1);
    } else {
        assert(hv.subrange(0, k) =~= hv);
    }
}

/// One optional header applied to the entry's members.
pub open spec fn set_if(e: Entries, h: Option<Seq<char>>, key: Seq<char>, f: spec_fn(Seq<char>) -> Option<JsonV>) -> Entries {
    match h {
        Some(v) => match f(v) {
            Some(x) => obj_insert(e, key, x),
            None => e,
        },
        None => e,
    }
}

/// An imported subscription's entry after reading the reply headers:
/// `subscription-userinfo` gives `extra`, `profile-title` the `name` (unless
/// one is set), `profile-update-interval` (hours) the `interval` in minutes,
/// `profile-web-page-url` the `home`, `support-url` the `supportUrl`, and
/// `announce` the `announce` text.
pub open spec fn with_headers_v(meta: Entries, hs: Seq<(Seq<char>, Seq<char>)>) -> Entries {
    let e1 = set_if(meta, header_get(hs, "subscription-userinfo"@), "extra"@, |v: Seq<char>| Some(usage_json(userinfo_v(v))));
    let named = match as_str(crate::json::obj_get(e1, "name"@)) {
        Some(n) => n.len() > 0,
        None => false,
    };
    let e2 = if named {
        e1
    } else {
        set_if(e1, header_get(hs, "profile-title"@), "name"@, |v: Seq<char>| Some(JsonV::Str(decode_header_value_v(v))))
    };
    let e3 = set_if(e2, header_get(hs, "profile-update-interval"@), "interval"@, |v: Seq<char>|
        match parse_i64(trim(v)) {
            Some(h) => Some(JsonV::Int(h * 60)),
            None => None,
        });
    let e4 = set_if(e3, header_get(hs, "profile-web-page-url"@), "home"@, |v: Seq<char>| Some(JsonV::Str(v)));
    let e5 = set_if(e4, header_get(hs, "support-url"@), "supportUrl"@, |v: Seq<char>| Some(JsonV::Str(v)));
    set_if(e5, header_get(hs, "announce"@), "announce"@, |v: Seq<char>| Some(JsonV::Str(decode_header_value_v(v))))
}

/// Takes the subscription reply headers (names in lower case) into the entry.
pub fn apply_subscription_headers(meta: Vec<(String, Json)>, headers: &Vec<(String, String)>) -> (r: Vec<(String, Json)>)
    ensures
        view_entries(r@) == with_headers_v(view_entries(meta@), headers_view(headers@)),
{
    let ghost hv = headers_view(headers@);
    let mut e = meta;
    let ghost e0 = view_entries(e@);
    if let Some(v) = find_header(headers, "subscription-userinfo") {
        e = insert_key(e, own("extra"), parse_subscription_userinfo(v.as_str()));
    }
    let ghost e1 = view_entries(e@);
    assert(e1 == set_if(e0, header_get(hv, "subscription-userinfo"@), "extra"@, |v: Seq<char>| Some(usage_json(userinfo_v(v)))));
    let named = {
        let i = crate::json::find_key(&e, "name");
        proof {
            crate::json::lemma_view_entries_len(e@);
            crate::json::lemma_obj_index(view_entries(e@), "name"@);
            if i < e.len() {
                crate::json::lemma_view_entries_index(e@, i as int);
            }
        }
        if i < e.len() {
            match e[i].1.as_str() {
                Some(n) => !n.is_empty(),
                None => false,
            }
        } else {
            false
        }
    };
    if !named {
        if let Some(v) = find_header(headers, "profile-title") {
            e = insert_key(e, own("name"), Json::Str(decode_header_value(v.as_str())));
        }
    }
    let ghost e2 = view_entries(e@);
    if let Some(v) = find_header(headers, "profile-update-interval") {
        let t = trim_str(v.as_str());
        if let Some(h) = parse_i64_str(t.as_str()) {
            e = insert_key(e, own("interval"), Json::Int((h as i128) * 60));
        }
    }
    let ghost e3 = view_entries(e@);
    assert(e3 == set_if(e2, header_get(hv, "profile-update-interval"@), "interval"@, |v: Seq<char>|
        match parse_i64(trim(v)) {
            Some(h) => Some(JsonV::Int(h * 60)),
            None => None,
        }));
    if let Some(v) = find_header(headers, "profile-web-page-url") {
        e = insert_key(e, own("home"), Json::Str(v.clone()));
    }
    let ghost e4 = view_entries(e@);
    assert(e4 == set_if(e3, header_get(hv, "profile-web-page-url"@), "home"@, |v: Seq<char>| Some(JsonV::Str(v))));
    if let Some(v) = find_header(headers, "support-url") {
        e = insert_key(e, own("supportUrl"), Json::Str(v.clone()));
    }
    let ghost e5 = view_entries(e@);
    assert(e5 == set_if(e4, header_get(hv, "support-url"@), "supportUrl"@, |v: Seq<char>| Some(JsonV::Str(v))));
    if let Some(v) = find_header(headers, "announce") {
        e = insert_key(e, own("announce"), Json::Str(decode_header_value(v.as_str())));
    }
    e
}

/// The stored entry of a local profile: its `file` contents are kept in the
/// profile's own file, not in the list.
pub fn local_profile_meta(meta: &Vec<(String, Json)>) -> (r: Vec<(String, Json)>)
    ensures
        view_entries(r@) == crate::merge::without_key(view_entries(meta@), "file"@),
{
    crate::merge::remove_key(meta, "file")
}

/// The user agent subscription downloads send:
/// `clash-meta/mihomo/Nyx-v<version>`.
pub fn nyx_user_agent(version: &str) -> (r: String)
    ensures
        r@ == "clash-meta/mihomo/Nyx-v"@ + version@,
{
    cat("clash-meta/mihomo/Nyx-v", version)
}

/// The user agent for fetching a profile: the item's own `ua`, else the
/// app's.
pub fn subscription_user_agent(item: &Json, version: &str) -> (r: String)
    ensures
        r@ == (match as_str(get(item@, "ua"@)) {
            Some(ua) => ua,
            None => "clash-meta/mihomo/Nyx-v"@ + version@,
        }),
{
    match item.get("ua") {
        Some(v) => match v.as_str() {
            Some(ua) => own(ua),
            None => nyx_user_agent(version),
        },
        None => nyx_user_agent(version),
    }
}

} // verus!
