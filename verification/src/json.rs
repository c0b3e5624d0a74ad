use vstd::prelude::*;

use crate::text::{split_char, split_str, str_eq};

verus! {

/// A JSON / YAML document as the configuration files and the core's REST
/// answers carry it. Object entries keep their order; keys are text.
pub enum Json {
    Null,
    Bool(bool),
    Int(i128),
    /// A non-integral number, kept as its decimal text.
    Float(String),
    Str(String),
    Array(Vec<Json>),
    Object(Vec<(String, Json)>),
}

/// The mathematical value of a [`Json`] document.
pub enum JsonV {
    Null,
    Bool(bool),
    Int(int),
    Float(Seq<char>),
    Str(Seq<char>),
    Array(Seq<JsonV>),
    Object(Seq<(Seq<char>, JsonV)>),
}

pub type Entries = Seq<(Seq<char>, JsonV)>;

pub open spec fn view_list(s: Seq<Json>) -> Seq<JsonV>
    decreases s,
{
    if s.len() == 0 {
        Seq::empty()
    } else {
        seq![view_json(s[0])] + view_list(s.subrange(1, s.len() as int))
    }
}

pub open spec fn view_entries(s: Seq<(String, Json)>) -> Entries
    decreases s,
{
    if s.len() == 0 {
        Seq::empty()
    } else {
        seq![(s[0].0@, view_json(s[0].1))] + view_entries(s.subrange(1, s.len() as int))
    }
}

pub open spec fn view_json(j: Json) -> JsonV
    decreases j,
{
    match j {
        Json::Null => JsonV::Null,
        Json::Bool(b) => JsonV::Bool(b),
        Json::Int(n) => JsonV::Int(n as int),
        Json::Float(s) => JsonV::Float(s@),
        Json::Str(s) => JsonV::Str(s@),
        Json::Array(v) => JsonV::Array(view_list(v@)),
        Json::Object(e) => JsonV::Object(view_entries(e@)),
    }
}

impl View for Json {
    type V = JsonV;

    open spec fn view(&self) -> JsonV {
        view_json(*self)
    }
}

pub proof fn lemma_view_list_len(s: Seq<Json>)
    ensures
        view_list(s).len() == s.len(),
    decreases s.len(),
{
    if s.len() > 0 {
        lemma_view_list_len(s.subrange(1, s.len() as int));
    }
}

pub proof fn lemma_view_list_index(s: Seq<Json>, i: int)
    requires
        0 <= i < s.len(),
    ensures
        view_list(s).len() == s.len(),
        view_list(s)[i] == view_json(s[i]),
    decreases s.len(),
{
    lemma_view_list_len(s);
    if i > 0 {
        lemma_view_list_index(s.subrange(1, s.len() as int), i - 1);
    }
}

pub proof fn lemma_view_list_push(s: Seq<Json>, x: Json)
    ensures
        view_list(s.push(x)) == view_list(s).push(view_json(x)),
    decreases s.len(),
{
    let sp = s.push(x);
    if s.len() == 0 {
        assert(sp.subrange(1, 1) =~= Seq::<Json>::empty());
        assert(view_list(Seq::<Json>::empty()) =~= Seq::<JsonV>::empty());
        assert(view_list(sp) =~= seq![view_json(x)]);
        assert(view_list(s) =~= Seq::<JsonV>::empty());
    } else {
        let t = s.subrange(1, s.len() as int);
        assert(sp.subrange(1, s.len() + 1int) =~= t.push(x));
        lemma_view_list_push(t, x);
        assert(sp[0] == s[0]);
        assert(view_list(sp) =~= seq![view_json(s[0])] + view_list(t).push(view_json(x)));
    }
}

pub proof fn lemma_view_entries_len(s: Seq<(String, Json)>)
    ensures
        view_entries(s).len() == s.len(),
    decreases s.len(),
{
    if s.len() > 0 {
        lemma_view_entries_len(s.subrange(1, s.len() as int));
    }
}

pub proof fn lemma_view_entries_index(s: Seq<(String, Json)>, i: int)
    requires
        0 <= i < s.len(),
    ensures
        view_entries(s).len() == s.len(),
        view_entries(s)[i] == (s[i].0@, view_json(s[i].1)),
    decreases s.len(),
{
    lemma_view_entries_len(s);
    if i > 0 {
        lemma_view_entries_index(s.subrange(1, s.len() as int), i - 1);
    }
}

pub proof fn lemma_view_entries_push(s: Seq<(String, Json)>, x: (String, Json))
    ensures
        view_entries(s.push(x)) == view_entries(s).push((x.0@, view_json(x.1))),
    decreases s.len(),
{
    let sp = s.push(x);
    if s.len() == 0 {
        assert(sp.subrange(1, 1) =~= Seq::<(String, Json)>::empty());
        assert(view_entries(Seq::<(String, Json)>::empty()) =~= Seq::<(Seq<char>, JsonV)>::empty());
        assert(view_entries(sp) =~= seq![(x.0@, view_json(x.1))]);
        assert(view_entries(s) =~= Seq::<(Seq<char>, JsonV)>::empty());
    } else {
        let t = s.subrange(1, s.len() as int);
        assert(sp.subrange(1, s.len() + 1int) =~= t.push(x));
        lemma_view_entries_push(t, x);
        assert(sp[0] == s[0]);
        assert(view_entries(sp) =~= seq![(s[0].0@, view_json(s[0].1))] + view_entries(t).push((x.0@, view_json(x.1))));
    }
}

pub proof fn lemma_view_entries_update(s: Seq<(String, Json)>, i: int, x: (String, Json))
    requires
        0 <= i < s.len(),
    ensures
        view_entries(s.update(i, x)) == view_entries(s).update(i, (x.0@, view_json(x.1))),
{
    let t = s.update(i, x);
    lemma_view_entries_len(s);
    lemma_view_entries_len(t);
    assert forall|j: int| 0 <= j < s.len() implies view_entries(t)[j] == view_entries(s).update(
        i,
        (x.0@, view_json(x.1)),
    )[j] by {
        lemma_view_entries_index(s, j);
        lemma_view_entries_index(t, j);
    }
    assert(view_entries(t) =~= view_entries(s).update(i, (x.0@, view_json(x.1))));
}

/// The value of the first entry named `k`, if any.
pub open spec fn obj_get(e: Entries, k: Seq<char>) -> Option<JsonV>
    decreases e.len(),
{
    if e.len() == 0 {
        None
    } else if e[0].0 == k {
        Some(e[0].1)
    } else {
        obj_get(e.subrange(1, e.len() as int), k)
    }
}

/// `j[k]` for an object, nothing for any other value.
pub open spec fn get(j: JsonV, k: Seq<char>) -> Option<JsonV> {
    match j {
        JsonV::Object(e) => obj_get(e, k),
        _ => None,
    }
}

pub open spec fn as_str(j: Option<JsonV>) -> Option<Seq<char>> {
    match j {
        Some(JsonV::Str(s)) => Some(s),
        _ => None,
    }
}

pub open spec fn as_bool(j: Option<JsonV>) -> Option<bool> {
    match j {
        Some(JsonV::Bool(b)) => Some(b),
        _ => None,
    }
}

/// An integral number that fits in a `u64`.
pub open spec fn as_u64(j: Option<JsonV>) -> Option<int> {
    match j {
        Some(JsonV::Int(n)) => if 0 <= n <= u64::MAX {
            Some(n)
        } else {
            None
        },
        _ => None,
    }
}

/// An integral number that fits in an `i64`.
pub open spec fn as_i64(j: Option<JsonV>) -> Option<int> {
    match j {
        Some(JsonV::Int(n)) => if i64::MIN <= n <= i64::MAX {
            Some(n)
        } else {
            None
        },
        _ => None,
    }
}

pub open spec fn as_array(j: Option<JsonV>) -> Option<Seq<JsonV>> {
    match j {
        Some(JsonV::Array(a)) => Some(a),
        _ => None,
    }
}

/// The position of the first entry named `k`.
pub open spec fn obj_index(e: Entries, k: Seq<char>) -> int
    decreases e.len(),
{
    if e.len() == 0 {
        -1
    } else if e[0].0 == k {
        0
    } else {
        let r = obj_index(e.subrange(1, e.len() as int), k);
        if r < 0 {
            -1
        } else {
            r + 1
        }
    }
}

pub proof fn lemma_obj_index(e: Entries, k: Seq<char>)
    ensures
        -1 <= obj_index(e, k) < e.len(),
        obj_index(e, k) >= 0 ==> e[obj_index(e, k)].0 == k && obj_get(e, k) == Some(
            e[obj_index(e, k)].1,
        ),
        obj_index(e, k) >= 0 ==> forall|j: int| 0 <= j < obj_index(e, k) ==> e[j].0 != k,
        obj_index(e, k) < 0 ==> obj_get(e, k) is None && forall|j: int|
            0 <= j < e.len() ==> e[j].0 != k,
    decreases e.len(),
{
    if e.len() > 0 && e[0].0 != k {
        let t = e.subrange(1, e.len() as int);
        lemma_obj_index(t, k);
        assert forall|j: int| 0 <= j < e.len() && obj_index(t, k) < 0 implies e[j].0 != k by {
            if j > 0 {
                assert(e[j] == t[j - 1]);
            }
        }
        assert forall|j: int| 0 <= j < obj_index(e, k) implies e[j].0 != k by {
            if j > 0 {
                assert(e[j] == t[j - 1]);
            }
        }
    }
}

/// Entries with the entry named `k` set to `v` in place, or `v` appended when
/// no entry has that name.
pub open spec fn obj_insert(e: Entries, k: Seq<char>, v: JsonV) -> Entries {
    let i = obj_index(e, k);
    if i >= 0 {
        e.update(i, (k, v))
    } else {
        e.push((k, v))
    }
}

/// Entries without any entry named `k`.
pub open spec fn obj_remove(e: Entries, k: Seq<char>) -> Entries {
    e.filter(|p: (Seq<char>, JsonV)| p.0 != k)
}

/// No name occurs twice among the entries.
pub open spec fn keys_unique(e: Entries) -> bool {
    forall|i: int, j: int| 0 <= i < j < e.len() ==> e[i].0 != e[j].0
}

impl Json {
    /// A copy of this document.
    pub fn duplicate(&self) -> (r: Json)
        ensures
            r@ == self@,
        decreases self,
    {
        match self {
            Json::Null => Json::Null,
            Json::Bool(b) => Json::Bool(*b),
            Json::Int(n) => Json::Int(*n),
            Json::Float(s) => Json::Float(s.clone()),
            Json::Str(s) => Json::Str(s.clone()),
            Json::Array(v) => Json::Array(duplicate_list(v)),
            Json::Object(e) => {
                let out = duplicate_entries(e);
                Json::Object(out)
            },
        }
    }

    /// The value under `key` when this is an object.
    pub fn get(&self, key: &str) -> (r: Option<&Json>)
        ensures
            match r {
                Some(x) => get(self@, key@) == Some(x@),
                None => get(self@, key@) is None,
            },
    {
        match self {
            Json::Object(e) => {
                let i = find_key(e, key);
                proof {
                    lemma_obj_index(view_entries(e@), key@);
                }
                if i < e.len() {
                    proof {
                        lemma_view_entries_index(e@, i as int);
                        lemma_obj_index(view_entries(e@), key@);
                        assert(self@ == JsonV::Object(view_entries(e@)));
                        assert(view_entries(e@)[i as int].1 == e@[i as int].1@);
                    }
                    Some(&e[i].1)
                } else {
                    None
                }
            },
            _ => None,
        }
    }

    pub fn as_str(&self) -> (r: Option<&str>)
        ensures
            match r {
                Some(s) => as_str(Some(self@)) == Some(s@),
                None => as_str(Some(self@)) is None,
            },
    {
        match self {
            Json::Str(s) => Some(s.as_str()),
            _ => None,
        }
    }

    pub fn as_bool(&self) -> (r: Option<bool>)
        ensures
            r == as_bool(Some(self@)),
    {
        match self {
            Json::Bool(b) => Some(*b),
            _ => None,
        }
    }

    pub fn as_u64(&self) -> (r: Option<u64>)
        ensures
            match r {
                Some(n) => as_u64(Some(self@)) == Some(n as int),
                None => as_u64(Some(self@)) is None,
            },
    {
        match self {
            Json::Int(n) => if 0 <= *n && *n <= 0xffff_ffff_ffff_ffffi128 {
                Some(*n as u64)
            } else {
                None
            },
            _ => None,
        }
    }

    pub fn as_i64(&self) -> (r: Option<i64>)
        ensures
            match r {
                Some(n) => as_i64(Some(self@)) == Some(n as int),
                None => as_i64(Some(self@)) is None,
            },
    {
        match self {
            Json::Int(n) => if -0x8000_0000_0000_0000i128 <= *n && *n <= 0x7fff_ffff_ffff_ffffi128 {
                Some(*n as i64)
            } else {
                None
            },
            _ => None,
        }
    }

    pub fn as_array(&self) -> (r: Option<&Vec<Json>>)
        ensures
            match r {
                Some(a) => as_array(Some(self@)) == Some(view_list(a@)),
                None => as_array(Some(self@)) is None,
            },
    {
        match self {
            Json::Array(a) => Some(a),
            _ => None,
        }
    }

    pub fn is_null(&self) -> (r: bool)
        ensures
            r == (self@ is Null),
    {
        match self {
            Json::Null => true,
            _ => false,
        }
    }

    pub fn is_object(&self) -> (r: bool)
        ensures
            r == (self@ is Object),
    {
        match self {
            Json::Object(_) => true,
            _ => false,
        }
    }
}

/// A copy of an array's items.
pub fn duplicate_list(v: &Vec<Json>) -> (out: Vec<Json>)
    ensures
        view_list(out@) == view_list(v@),
    decreases v,
{
    let mut out: Vec<Json> = Vec::new();
    let mut i: usize = 0;
    while i < v.len()
        invariant
            i <= v.len(),
            view_list(out@) == view_list(v@.subrange(0, i as int)),
        decreases v.len() - i,
    {
        assert(decreases_to!(v => v@[i as int]));
        let x = v[i].duplicate();
        proof {
            lemma_view_list_push(out@, x);
            assert(v@.subrange(0, i + 1) =~= v@.subrange(0, i as int).push(v@[i as int]));
            lemma_view_list_push(v@.subrange(0, i as int), v@[i as int]);
        }
        out.push(x);
        i += 1;
    }
    assert(v@.subrange(0, v.len() as int) =~= v@);
    out
}

/// A copy of an object's entries.
pub fn duplicate_entries(e: &Vec<(String, Json)>) -> (out: Vec<(String, Json)>)
    ensures
        view_entries(out@) == view_entries(e@),
    decreases e,
{
    let mut out: Vec<(String, Json)> = Vec::new();
    let mut i: usize = 0;
    while i < e.len()
        invariant
            i <= e.len(),
            view_entries(out@) == view_entries(e@.subrange(0, i as int)),
        decreases e.len() - i,
    {
        assert(decreases_to!(e => e@[i as int].1));
        let x = (e[i].0.clone(), e[i].1.duplicate());
        proof {
            lemma_view_entries_push(out@, x);
            assert(e@.subrange(0, i + 1) =~= e@.subrange(0, i as int).push(e@[i as int]));
            lemma_view_entries_push(e@.subrange(0, i as int), e@[i as int]);
        }
        out.push(x);
        i += 1;
    }
    assert(e@.subrange(0, e.len() as int) =~= e@);
    out
}

/// The position of the first entry named `key`, or `e.len()` when none is.
pub fn find_key(e: &Vec<(String, Json)>, key: &str) -> (i: usize)
    ensures
        i <= e.len(),
        i < e.len() ==> obj_index(view_entries(e@), key@) == i as int,
        i == e.len() ==> obj_index(view_entries(e@), key@) == -1,
{
    let ghost ve = view_entries(e@);
    proof {
        lemma_view_entries_len(e@);
        lemma_obj_index(ve, key@);
    }
    let mut i: usize = 0;
    while i < e.len()
        invariant
            i <= e.len(),
            ve == view_entries(e@),
            ve.len() == e.len(),
            forall|j: int| 0 <= j < i ==> ve[j].0 != key@,
        decreases e.len() - i,
    {
        proof {
            lemma_view_entries_index(e@, i as int);
        }
        if str_eq(e[i].0.as_str(), key) {
            proof {
                lemma_obj_index_first(ve, key@, i as int);
            }
            return i;
        }
        i += 1;
    }
    proof {
        lemma_obj_index_none(ve, key@);
    }
    i
}

pub proof fn lemma_obj_index_first(e: Entries, k: Seq<char>, i: int)
    requires
        0 <= i < e.len(),
        e[i].0 == k,
        forall|j: int| 0 <= j < i ==> e[j].0 != k,
    ensures
        obj_index(e, k) == i,
    decreases e.len(),
{
    if i > 0 {
        let t = e.subrange(1, e.len() as int);
        assert forall|j: int| 0 <= j < i - 1 implies t[j].0 != k by {
            assert(t[j] == e[j + 1]);
        }
        lemma_obj_index_first(t, k, i - 1);
    }
}

pub proof fn lemma_obj_index_none(e: Entries, k: Seq<char>)
    requires
        forall|j: int| 0 <= j < e.len() ==> e[j].0 != k,
    ensures
        obj_index(e, k) == -1,
        obj_get(e, k) is None,
    decreases e.len(),
{
    if e.len() > 0 {
        let t = e.subrange(1, e.len() as int);
        assert forall|j: int| 0 <= j < t.len() implies t[j].0 != k by {
            assert(t[j] == e[j + 1]);
        }
        lemma_obj_index_none(t, k);
    }
}


/// The value reached from `j` by following the names `segs` one by one.
pub open spec fn path_get(j: JsonV, segs: Seq<Seq<char>>) -> Option<JsonV>
    decreases segs.len(),
{
    if segs.len() == 0 {
        Some(j)
    } else {
        match path_get(j, segs.drop_last()) {
            Some(x) => get(x, segs.last()),
            None => None,
        }
    }
}

/// The value under a dot path such as `sysProxy.enable`.
pub fn lookup_path<'a>(j: &'a Json, path: &str) -> (r: Option<&'a Json>)
    ensures
        match r {
            Some(x) => path_get(j@, split_char(path@, '.')) == Some(x@),
            None => path_get(j@, split_char(path@, '.')) is None,
        },
{
    let segs = split_str(path, '.');
    let ghost sv = segs@.map_values(|p: String| p@);
    let mut cur: &Json = j;
    let mut i: usize = 0;
    proof {
        assert(sv.subrange(0, 0) =~= Seq::<Seq<char>>::empty());
    }
    while i < segs.len()
        invariant
            i <= segs.len(),
            sv == segs@.map_values(|p: String| p@),
            sv == split_char(path@, '.'),
            path_get(j@, sv.subrange(0, i as int)) == Some(cur@),
        decreases segs.len() - i,
    {
        proof {
            assert(sv.subrange(0, i + 1).drop_last() =~= sv.subrange(0, i as int));
            assert(sv.subrange(0, i + 1).last() == segs@[i as int]@);
        }
        match cur.get(segs[i].as_str()) {
            Some(x) => {
                cur = x;
            },
            None => {
                proof {
                    let k = i + 1;
                    assert forall|m: int| k <= m <= sv.len() implies path_get(j@, #[trigger] sv.subrange(0, m)) is None by {
                        lemma_path_get_none_extends(j@, sv, k, m);
                    }
                    assert(sv.subrange(0, sv.len() as int) =~= sv);
                }
                return None;
            },
        }
        i += 1;
    }
    assert(sv.subrange(0, segs.len() as int) =~= sv);
    Some(cur)
}

pub proof fn lemma_path_get_none_extends(j: JsonV, sv: Seq<Seq<char>>, k: int, m: int)
    requires
        0 <= k <= m <= sv.len(),
        path_get(j, sv.subrange(0, k)) is None,
    ensures
        path_get(j, sv.subrange(0, m)) is None,
    decreases m - k,
{
    if m > k {
        lemma_path_get_none_extends(j, sv, k, m - 1);
        assert(sv.subrange(0, m).drop_last() =~= sv.subrange(0, m - 1));
    }
}

} // verus!
