use vstd::prelude::*;

use crate::connection::with_member;
use crate::json::{as_array, get, lemma_view_list_len, lemma_view_list_push, obj_get, view_entries, view_list, Json, JsonV};
use crate::json::keys_unique;
use crate::keys::{configured_accel, key_code_v, keystroke_to_accel, modifier_prefix};
use crate::merge::{law_merge_patch_lookup, merge_patch_v};
use crate::state::{collect_texts, text_items, ProxyGroup, ProxyNode};
use crate::text::{cat, in_list, own, str_eq, trim, trim_start, trim_str};

verus! {

/// The rule overrides of a profile while they are edited: rules put before
/// the profile's own, rules put after them, and profile rules left out.
pub struct RuleEdits {
    pub prepend: Vec<String>,
    pub append: Vec<String>,
    pub delete: Vec<String>,
}

/// The texts of a list of strings.
pub open spec fn texts(v: Seq<String>) -> Seq<Seq<char>> {
    v.map_values(|s: String| s@)
}

/// The text items of the array under `key` of an overrides document (none
/// when it is missing or no array).
pub open spec fn list_v(doc: JsonV, key: Seq<char>) -> Seq<Seq<char>> {
    match as_array(get(doc, key)) {
        Some(a) => text_items(a),
        None => Seq::empty(),
    }
}

fn text_list(doc: &Json, key: &str) -> (r: Vec<String>)
    ensures
        texts(r@) == list_v(doc@, key@),
{
    match doc.get(key) {
        Some(v) => match v.as_array() {
            Some(a) => collect_texts(a),
            None => {
                let r: Vec<String> = Vec::new();
                assert(texts(r@) =~= Seq::<Seq<char>>::empty());
                r
            },
        },
        None => {
            let r: Vec<String> = Vec::new();
            assert(texts(r@) =~= Seq::<Seq<char>>::empty());
            r
        },
    }
}

/// Reads the lists of an overrides document (a file that is no YAML reads
/// as `null`, with every list empty).
pub fn parse_rule_overrides(doc: &Json) -> (r: RuleEdits)
    ensures
        texts(r.prepend@) == list_v(doc@, "prepend"@),
        texts(r.append@) == list_v(doc@, "append"@),
        texts(r.delete@) == list_v(doc@, "delete"@),
{
    RuleEdits {
        prepend: text_list(doc, "prepend"),
        append: text_list(doc, "append"),
        delete: text_list(doc, "delete"),
    }
}

/// A list of texts as an array of strings.
pub open spec fn str_array(v: Seq<Seq<char>>) -> JsonV {
    JsonV::Array(v.map_values(|s: Seq<char>| JsonV::Str(s)))
}

fn text_array(v: &Vec<String>) -> (r: Json)
    ensures
        r@ == str_array(texts(v@)),
{
    let mut out: Vec<Json> = Vec::new();
    let mut i: usize = 0;
    proof {
        lemma_view_list_len(out@);
    }
    assert(view_list(out@) =~= texts(v@).subrange(0, 0).map_values(|s: Seq<char>| JsonV::Str(s)));
    while i < v.len()
        invariant
            i <= v.len(),
            view_list(out@) == texts(v@).subrange(0, i as int).map_values(|s: Seq<char>| JsonV::Str(s)),
        decreases v.len() - i,
    {
        let x = Json::Str(v[i].clone());
        proof {
            lemma_view_list_push(out@, x);
        }
        out.push(x);
        assert(view_list(out@) =~= texts(v@).subrange(0, i + 1).map_values(|s: Seq<char>| JsonV::Str(s)));
        i += 1;
    }
    assert(texts(v@).subrange(0, v.len() as int) =~= texts(v@));
    Json::Array(out)
}

/// The overrides document the editor saves: its three lists, keys in
/// alphabetical order.
pub open spec fn rule_doc_v(prepend: Seq<Seq<char>>, append: Seq<Seq<char>>, delete: Seq<Seq<char>>) -> JsonV {
    JsonV::Object(
        seq![("append"@, str_array(append)), ("delete"@, str_array(delete)), ("prepend"@, str_array(prepend))],
    )
}

impl RuleEdits {
    /// The overrides document to save.
    pub fn to_doc(&self) -> (r: Json)
        ensures
            r@ == rule_doc_v(texts(self.prepend@), texts(self.append@), texts(self.delete@)),
    {
        let e = with_member(Vec::new(), "append", text_array(&self.append));
        let e = with_member(e, "delete", text_array(&self.delete));
        let e = with_member(e, "prepend", text_array(&self.prepend));
        assert(view_entries(Seq::<(String, Json)>::empty()) =~= Seq::<(Seq<char>, JsonV)>::empty());
        assert(view_entries(e@) =~= seq![
            ("append"@, str_array(texts(self.append@))),
            ("delete"@, str_array(texts(self.delete@))),
            ("prepend"@, str_array(texts(self.prepend@))),
        ]);
        Json::Object(e)
    }
}

impl RuleEdits {
    /// Adds a rule after the profile's rules (appended last) or before them
    /// (put first).
    pub fn add_rule(&mut self, rule: String, to_append: bool)
        ensures
            to_append ==> texts(final(self).append@) == texts(old(self).append@).push(rule@) && final(self).prepend@
                == old(self).prepend@,
            !to_append ==> texts(final(self).prepend@) == seq![rule@] + texts(old(self).prepend@) && final(self).append@
                == old(self).append@,
            final(self).delete@ == old(self).delete@,
    {
        if to_append {
            self.append.push(rule);
            assert(texts(self.append@) =~= texts(old(self).append@).push(rule@));
        } else {
            self.prepend.insert(0, rule);
            assert(texts(self.prepend@) =~= seq![rule@] + texts(old(self).prepend@));
        }
    }

    /// Drops the added rule at `idx` of the appended (or put-first) list; an
    /// index past the end changes nothing.
    pub fn remove_rule(&mut self, append: bool, idx: usize)
        ensures
            append ==> final(self).append@ == (if idx < old(self).append@.len() {
                old(self).append@.remove(idx as int)
            } else {
                old(self).append@
            }) && final(self).prepend@ == old(self).prepend@,
            !append ==> final(self).prepend@ == (if idx < old(self).prepend@.len() {
                old(self).prepend@.remove(idx as int)
            } else {
                old(self).prepend@
            }) && final(self).append@ == old(self).append@,
            final(self).delete@ == old(self).delete@,
    {
        if append {
            if idx < self.append.len() {
                self.append.remove(idx);
            }
        } else {
            if idx < self.prepend.len() {
                self.prepend.remove(idx);
            }
        }
    }

    /// Leaves a rule of the profile out, or takes it back in: its first
    /// occurrence among the left-out rules is dropped, else it is added.
    pub fn toggle_delete(&mut self, rule: &str)
        ensures
            texts(final(self).delete@) == (match texts(old(self).delete@).index_of_first(rule@) {
                Some(i) => texts(old(self).delete@).remove(i),
                None => texts(old(self).delete@).push(rule@),
            }),
            final(self).prepend@ == old(self).prepend@,
            final(self).append@ == old(self).append@,
    {
        let ghost d = texts(self.delete@);
        proof {
            d.index_of_first_ensures(rule@);
        }
        let mut i: usize = 0;
        while i < self.delete.len()
            invariant
                i <= self.delete.len(),
                d == texts(self.delete@),
                d == texts(old(self).delete@),
                self.prepend@ == old(self).prepend@,
                self.append@ == old(self).append@,
                forall|j: int| 0 <= j < i ==> d[j] != rule@,
                match d.index_of_first(rule@) {
                    Some(k) => 0 <= k < d.len() && d[k] == rule@ && forall|j: int| 0 <= j < k ==> d[j] != rule@,
                    None => !d.contains(rule@),
                },
            decreases self.delete.len() - i,
        {
            if str_eq(self.delete[i].as_str(), rule) {
                proof {
                    assert(d[i as int] == rule@);
                    assert(d.contains(rule@));
                    let k = d.index_of_first(rule@)->0;
                    assert(k == i) by {
                        if k < i {
                            assert(d[k] != rule@);
                        }
                        if k > i {
                            assert(d[i as int] != rule@);
                        }
                    }
                }
                self.delete.remove(i);
                assert(texts(self.delete@) =~= d.remove(i as int));
                return;
            }
            i += 1;
        }
        proof {
            assert(!d.contains(rule@));
        }
        self.delete.push(own(rule));
        assert(texts(self.delete@) =~= d.push(rule@));
    }
}

/// Leaving a rule out and taking it back are each other's undoing: on a list
/// where no rule occurs twice, a toggle flips whether the rule is left out,
/// keeps every other rule's state, and keeps the list free of repeats.
pub proof fn law_toggle_delete(d: Seq<Seq<char>>, rule: Seq<char>, other: Seq<char>)
    requires
        d.no_duplicates(),
    ensures
        ({
            let t = match d.index_of_first(rule) {
                Some(i) => d.remove(i),
                None => d.push(rule),
            };
            &&& t.contains(rule) == !d.contains(rule)
            &&& other != rule ==> t.contains(other) == d.contains(other)
            &&& t.no_duplicates()
        }),
{
    d.index_of_first_ensures(rule);
    match d.index_of_first(rule) {
        Some(i) => {
            let t = d.remove(i);
            assert(t =~= d.subrange(0, i) + d.subrange(i + 1, d.len() as int));
            assert forall|k: int| 0 <= k < t.len() implies t[k] != rule by {
                if k < i {
                    assert(t[k] == d[k]);
                } else {
                    assert(t[k] == d[k + 1]);
                }
            }
            if other != rule {
                if d.contains(other) {
                    let k = choose|k: int| 0 <= k < d.len() && d[k] == other;
                    if k < i {
                        assert(t[k] == other);
                    } else {
                        assert(k != i);
                        assert(t[k - 1] == other);
                    }
                }
                if t.contains(other) {
                    let k = choose|k: int| 0 <= k < t.len() && t[k] == other;
                    if k < i {
                        assert(d[k] == other);
                    } else {
                        assert(d[k + 1] == other);
                    }
                }
            }
            assert forall|a: int, b: int| 0 <= a < t.len() && 0 <= b < t.len() && a != b implies t[a] != t[b] by {
                let da = if a < i { a } else { a + 1 };
                let db = if b < i { b } else { b + 1 };
                assert(t[a] == d[da]);
                assert(t[b] == d[db]);
            }
        },
        None => {
            let t = d.push(rule);
            assert(t[d.len() as int] == rule);
            if other != rule {
                if t.contains(other) {
                    let k = choose|k: int| 0 <= k < t.len() && t[k] == other;
                    assert(k < d.len());
                    assert(d[k] == other);
                }
                if d.contains(other) {
                    let k = choose|k: int| 0 <= k < d.len() && d[k] == other;
                    assert(t[k] == other);
                }
            }
            assert forall|a: int, b: int| 0 <= a < t.len() && 0 <= b < t.len() && a != b implies t[a] != t[b] by {
                if a < d.len() && b < d.len() {
                    assert(t[a] == d[a] && t[b] == d[b]);
                } else if a < d.len() {
                    assert(t[a] == d[a]);
                } else {
                    assert(t[b] == d[b]);
                }
            }
        },
    }
}

proof fn lemma_text_items_str_array(v: Seq<Seq<char>>)
    ensures
        text_items(v.map_values(|s: Seq<char>| JsonV::Str(s))) == v,
    decreases v.len(),
{
    let a = v.map_values(|s: Seq<char>| JsonV::Str(s));
    if v.len() > 0 {
        lemma_text_items_str_array(v.drop_last());
        assert(a.drop_last() =~= v.drop_last().map_values(|s: Seq<char>| JsonV::Str(s)));
        assert(v.drop_last().push(v.last()) =~= v);
    } else {
        assert(a =~= Seq::<JsonV>::empty());
    }
}

/// What the editor saves is what it reads back: each list of the saved
/// document is the list that was edited.
pub proof fn law_saved_overrides_read_back(prepend: Seq<Seq<char>>, append: Seq<Seq<char>>, delete: Seq<Seq<char>>)
    ensures
        list_v(rule_doc_v(prepend, append, delete), "prepend"@) == prepend,
        list_v(rule_doc_v(prepend, append, delete), "append"@) == append,
        list_v(rule_doc_v(prepend, append, delete), "delete"@) == delete,
{
    reveal_strlit("prepend");
    reveal_strlit("append");
    reveal_strlit("delete");
    let e = seq![("append"@, str_array(append)), ("delete"@, str_array(delete)), ("prepend"@, str_array(prepend))];
    assert(e.subrange(1, 3) =~= seq![("delete"@, str_array(delete)), ("prepend"@, str_array(prepend))]);
    assert(e.subrange(1, 3).subrange(1, 2) =~= seq![("prepend"@, str_array(prepend))]);
    assert(obj_get(e, "append"@) == Some(str_array(append)));
    assert("delete"@[0] != "append"@[0]);
    assert(obj_get(e.subrange(1, 3), "delete"@) == Some(str_array(delete)));
    assert(obj_get(e, "delete"@) == Some(str_array(delete)));
    assert("prepend"@[0] != "append"@[0] && "prepend"@[0] != "delete"@[0]);
    assert(obj_get(e.subrange(1, 3).subrange(1, 2), "prepend"@) == Some(str_array(prepend)));
    assert(obj_get(e.subrange(1, 3), "prepend"@) == Some(str_array(prepend)));
    assert(obj_get(e, "prepend"@) == Some(str_array(prepend)));
    lemma_text_items_str_array(prepend);
    lemma_text_items_str_array(append);
    lemma_text_items_str_array(delete);
}

/// The rule the add form describes: `MATCH,<policy>` for a catch-all, else
/// `<type>,<payload>,<policy>` with the payload trimmed; nothing without a
/// policy, or without a payload for a type that needs one.
pub open spec fn rule_text_v(kind: Seq<char>, payload: Seq<char>, policy: Seq<char>) -> Option<Seq<char>> {
    if policy.len() == 0 {
        None
    } else if kind == "MATCH"@ {
        Some("MATCH,"@ + policy)
    } else if trim(payload).len() == 0 {
        None
    } else {
        Some(kind + ","@ + trim(payload) + ","@ + policy)
    }
}

/// The rule to add from the form's rule type (`DOMAIN` when none is
/// chosen), payload and policy.
pub fn rule_text(kind: Option<&str>, payload: &str, policy: &str) -> (r: Option<String>)
    ensures
        match r {
            Some(t) => rule_text_v(
                match kind {
                    Some(k) => k@,
                    None => "DOMAIN"@,
                },
                payload@,
                policy@,
            ) == Some(t@),
            None => rule_text_v(
                match kind {
                    Some(k) => k@,
                    None => "DOMAIN"@,
                },
                payload@,
                policy@,
            ) is None,
        },
{
    let kind = match kind {
        Some(k) => k,
        None => "DOMAIN",
    };
    if policy.is_empty() {
        return None;
    }
    if str_eq(kind, "MATCH") {
        return Some(cat("MATCH,", policy));
    }
    let p = trim_str(payload);
    if p.as_str().is_empty() {
        return None;
    }
    let mut t = cat(kind, ",");
    t.push_str(p.as_str());
    t.push_str(",");
    t.push_str(policy);
    Some(t)
}

/// `s` with each text added unless `acc` already holds it (first
/// occurrences kept, in order).
pub open spec fn add_unique(acc: Seq<Seq<char>>, s: Seq<Seq<char>>) -> Seq<Seq<char>>
    decreases s.len(),
{
    if s.len() == 0 {
        acc
    } else {
        let r = add_unique(acc, s.drop_last());
        if r.contains(s.last()) {
            r
        } else {
            r.push(s.last())
        }
    }
}

proof fn lemma_add_unique_concat(acc: Seq<Seq<char>>, a: Seq<Seq<char>>, b: Seq<Seq<char>>)
    ensures
        add_unique(acc, a + b) == add_unique(add_unique(acc, a), b),
    decreases b.len(),
{
    if b.len() == 0 {
        assert(a + b =~= a);
    } else {
        assert((a + b).drop_last() =~= a + b.drop_last());
        assert((a + b).last() == b.last());
        lemma_add_unique_concat(acc, a, b.drop_last());
    }
}

proof fn lemma_add_unique_contains(acc: Seq<Seq<char>>, s: Seq<Seq<char>>, x: Seq<char>)
    ensures
        (acc.contains(x) || s.contains(x)) ==> add_unique(acc, s).contains(x),
        acc.no_duplicates() ==> add_unique(acc, s).no_duplicates(),
    decreases s.len(),
{
    if s.len() > 0 {
        lemma_add_unique_contains(acc, s.drop_last(), x);
        let r = add_unique(acc, s.drop_last());
        if s.contains(x) && !s.drop_last().contains(x) {
            let k = choose|k: int| 0 <= k < s.len() && s[k] == x;
            if k < s.len() - 1 {
                assert(s.drop_last()[k] == x);
            }
        }
        if r.contains(x) {
            let k = choose|k: int| 0 <= k < r.len() && r[k] == x;
            if !r.contains(s.last()) {
                assert(r.push(s.last())[k] == x);
            }
        }
        if !r.contains(s.last()) {
            assert(r.push(s.last())[r.len() as int] == s.last());
            if acc.no_duplicates() {
                assert forall|a: int, b: int|
                    0 <= a < r.len() + 1 && 0 <= b < r.len() + 1 && a != b implies r.push(s.last())[a] != r.push(
                    s.last(),
                )[b] by {
                    if a < r.len() && b < r.len() {
                    } else if a < r.len() {
                        assert(r.push(s.last())[a] == r[a]);
                    } else {
                        assert(r.push(s.last())[b] == r[b]);
                    }
                }
            }
        }
    }
}

fn add_unique_one(out: &mut Vec<String>, s: &str)
    ensures
        texts(final(out)@) == add_unique(texts(old(out)@), seq![s@]),
{
    let ghost o = texts(out@);
    assert(seq![s@].drop_last() =~= Seq::<Seq<char>>::empty());
    assert(add_unique(o, Seq::<Seq<char>>::empty()) == o);
    assert(seq![s@].last() == s@);
    if !in_list(out, s) {
        out.push(own(s));
        assert(texts(out@) =~= o.push(s@));
    }
}

/// The names of the groups' members, group by group.
pub open spec fn node_names(gs: Seq<ProxyGroup>) -> Seq<Seq<char>>
    decreases gs.len(),
{
    if gs.len() == 0 {
        Seq::empty()
    } else {
        node_names(gs.drop_last()) + gs.last().all@.map_values(|n: ProxyNode| n.name@)
    }
}

/// The policies a rule can send traffic to, as the editor offers them: the
/// groups, then their members, then the built-in policies, each once.
pub open spec fn policy_choices_v(gs: Seq<ProxyGroup>) -> Seq<Seq<char>> {
    add_unique(
        add_unique(add_unique(Seq::empty(), gs.map_values(|g: ProxyGroup| g.name@)), node_names(gs)),
        seq!["DIRECT"@, "REJECT"@, "REJECT-DROP"@, "PASS"@, "COMPATIBLE"@],
    )
}

/// The policies offered for a new rule, and the one chosen at first (the
/// position of `DIRECT`).
pub fn policy_choices(groups: &Vec<ProxyGroup>) -> (r: (Vec<String>, Option<usize>))
    ensures
        texts(r.0@) == policy_choices_v(groups@),
        r.1 matches Some(k) && policy_choices_v(groups@).index_of_first("DIRECT"@) == Some(k as int),
        policy_choices_v(groups@).no_duplicates(),
{
    let ghost gs = groups@;
    let ghost names = gs.map_values(|g: ProxyGroup| g.name@);
    let mut out: Vec<String> = Vec::new();
    assert(texts(out@) =~= Seq::<Seq<char>>::empty());
    let mut i: usize = 0;
    assert(names.subrange(0, 0) =~= Seq::<Seq<char>>::empty());
    while i < groups.len()
        invariant
            i <= groups.len(),
            gs == groups@,
            names == gs.map_values(|g: ProxyGroup| g.name@),
            texts(out@) == add_unique(Seq::empty(), names.subrange(0, i as int)),
        decreases groups.len() - i,
    {
        let ghost before = texts(out@);
        add_unique_one(&mut out, groups[i].name.as_str());
        proof {
            lemma_add_unique_concat(Seq::empty(), names.subrange(0, i as int), seq![names[i as int]]);
            assert(names.subrange(0, i as int) + seq![names[i as int]] =~= names.subrange(0, i + 1));
        }
        i += 1;
    }
    assert(names.subrange(0, groups.len() as int) =~= names);
    let ghost start = texts(out@);
    let mut i: usize = 0;
    assert(gs.subrange(0, 0) =~= Seq::<ProxyGroup>::empty());
    assert(node_names(gs.subrange(0, 0)) =~= Seq::<Seq<char>>::empty());
    while i < groups.len()
        invariant
            i <= groups.len(),
            gs == groups@,
            texts(out@) == add_unique(start, node_names(gs.subrange(0, i as int))),
        decreases groups.len() - i,
    {
        let g = &groups[i];
        let ghost members = g.all@.map_values(|n: ProxyNode| n.name@);
        let ghost mid = node_names(gs.subrange(0, i as int));
        let mut j: usize = 0;
        assert(members.subrange(0, 0) =~= Seq::<Seq<char>>::empty());
        assert(mid + members.subrange(0, 0) =~= mid);
        while j < g.all.len()
            invariant
                j <= g.all.len(),
                members == g.all@.map_values(|n: ProxyNode| n.name@),
                texts(out@) == add_unique(start, mid + members.subrange(0, j as int)),
            decreases g.all.len() - j,
        {
            add_unique_one(&mut out, g.all[j].name.as_str());
            proof {
                lemma_add_unique_concat(start, mid + members.subrange(0, j as int), seq![members[j as int]]);
                assert(mid + members.subrange(0, j as int) + seq![members[j as int]] =~= mid + members.subrange(
                    0,
                    j + 1,
                ));
            }
            j += 1;
        }
        proof {
            assert(members.subrange(0, g.all.len() as int) =~= members);
            let gi = gs.subrange(0, i + 1);
            assert(gi.drop_last() =~= gs.subrange(0, i as int));
            assert(gi.last() == gs[i as int]);
        }
        i += 1;
    }
    assert(gs.subrange(0, groups.len() as int) =~= gs);
    let ghost mid2 = texts(out@);
    add_unique_one(&mut out, "DIRECT");
    add_unique_one(&mut out, "REJECT");
    add_unique_one(&mut out, "REJECT-DROP");
    add_unique_one(&mut out, "PASS");
    add_unique_one(&mut out, "COMPATIBLE");
    proof {
        let b = seq!["DIRECT"@, "REJECT"@, "REJECT-DROP"@, "PASS"@, "COMPATIBLE"@];
        lemma_add_unique_concat(mid2, seq!["DIRECT"@], seq!["REJECT"@]);
        assert(seq!["DIRECT"@] + seq!["REJECT"@] =~= b.subrange(0, 2));
        lemma_add_unique_concat(mid2, b.subrange(0, 2), seq!["REJECT-DROP"@]);
        assert(b.subrange(0, 2) + seq!["REJECT-DROP"@] =~= b.subrange(0, 3));
        lemma_add_unique_concat(mid2, b.subrange(0, 3), seq!["PASS"@]);
        assert(b.subrange(0, 3) + seq!["PASS"@] =~= b.subrange(0, 4));
        lemma_add_unique_concat(mid2, b.subrange(0, 4), seq!["COMPATIBLE"@]);
        assert(b.subrange(0, 4) + seq!["COMPATIBLE"@] =~= b);
        assert(b[0] == "DIRECT"@);
        lemma_add_unique_contains(mid2, b, "DIRECT"@);
        assert(texts(out@) == add_unique(mid2, b));
        assert(mid2 == add_unique(start, node_names(gs)));
        assert(start == add_unique(Seq::<Seq<char>>::empty(), names));
        assert(texts(out@) == policy_choices_v(gs));
        let e = Seq::<Seq<char>>::empty();
        lemma_add_unique_contains(e, names, "DIRECT"@);
        lemma_add_unique_contains(add_unique(e, names), node_names(gs), "DIRECT"@);
        lemma_add_unique_contains(add_unique(add_unique(e, names), node_names(gs)), b, "DIRECT"@);
    }
    let ghost res = texts(out@);
    proof {
        res.index_of_first_ensures("DIRECT"@);
    }
    let mut k: usize = 0;
    while k < out.len()
        invariant
            k <= out.len(),
            res == texts(out@),
            res == policy_choices_v(groups@),
            res.no_duplicates(),
            res.contains("DIRECT"@),
            forall|j: int| 0 <= j < k ==> res[j] != "DIRECT"@,
            match res.index_of_first("DIRECT"@) {
                Some(x) => 0 <= x < res.len() && res[x] == "DIRECT"@ && forall|j: int| 0 <= j < x ==> res[j]
                    != "DIRECT"@,
                None => !res.contains("DIRECT"@),
            },
        decreases out.len() - k,
    {
        if str_eq(out[k].as_str(), "DIRECT") {
            proof {
                let x = res.index_of_first("DIRECT"@)->0;
                assert(res[k as int] == "DIRECT"@);
                if x < k {
                    assert(res[x] != "DIRECT"@);
                }
                if x > k {
                    assert(res[k as int] != "DIRECT"@);
                }
            }
            return (out, Some(k));
        }
        k += 1;
    }
    proof {
        let j = choose|j: int| 0 <= j < res.len() && res[j] == "DIRECT"@;
        assert(res[j] != "DIRECT"@);
    }
    (out, None)
}

/// What a keystroke does while a shortcut is being recorded.
pub enum RecorderOutcome {
    /// Escape: stop recording, keep the old binding.
    Cancel,
    /// Backspace or Delete: stop recording and clear the binding.
    Clear,
    /// Stop recording and bind this accelerator.
    Bind(String),
    /// A key with no code: keep recording.
    Ignore,
}

/// The outcome of a keystroke (its logical key and the modifiers held) while
/// recording a shortcut.
pub fn recorder_outcome(key: &str, control: bool, alt: bool, shift: bool, platform: bool) -> (r: RecorderOutcome)
    ensures
        key@ == "escape"@ ==> r is Cancel,
        (key@ == "backspace"@ || key@ == "delete"@) ==> r is Clear,
        (key@ != "escape"@ && key@ != "backspace"@ && key@ != "delete"@) ==> match key_code_v(key@) {
            Some(code) => r matches RecorderOutcome::Bind(a) && a@ == modifier_prefix(control, alt, shift, platform)
                + code,
            None => r is Ignore,
        },
{
    proof {
        reveal_strlit("escape");
        reveal_strlit("backspace");
        reveal_strlit("delete");
        assert("escape"@[0] != "backspace"@[0] && "escape"@[0] != "delete"@[0]);
    }
    if str_eq(key, "escape") {
        return RecorderOutcome::Cancel;
    }
    if str_eq(key, "backspace") || str_eq(key, "delete") {
        return RecorderOutcome::Clear;
    }
    match keystroke_to_accel(key, control, alt, shift, platform) {
        Some(a) => RecorderOutcome::Bind(a),
        None => RecorderOutcome::Ignore,
    }
}

/// The app-config patch that binds shortcut `name` to `accel`; an empty
/// accelerator clears the binding.
pub open spec fn shortcut_patch_v(name: Seq<char>, accel: Seq<char>) -> JsonV {
    JsonV::Object(seq![(name, if accel.len() == 0 { JsonV::Null } else { JsonV::Str(accel) })])
}

/// The app-config patch that binds shortcut `name` to `accel` (see
/// [`shortcut_patch_v`]).
pub fn shortcut_patch(name: &str, accel: &str) -> (r: Json)
    ensures
        r@ == shortcut_patch_v(name@, accel@),
{
    let v = if accel.is_empty() {
        Json::Null
    } else {
        Json::Str(own(accel))
    };
    crate::connection::object1(name, v)
}

/// A shortcut saved into the app config is the one the hotkeys read back
/// (trimmed; a blank one, or a cleared one, reads as unset), and the other
/// shortcuts read as before.
pub proof fn law_saved_shortcut_read_back(cfg: JsonV, name: Seq<char>, accel: Seq<char>, other: Seq<char>)
    requires
        cfg is Object,
    ensures
        configured_accel(merge_patch_v(cfg, shortcut_patch_v(name, accel)), name) == (if trim(accel).len() > 0 {
            Some(trim(accel))
        } else {
            None
        }),
        other != name ==> configured_accel(merge_patch_v(cfg, shortcut_patch_v(name, accel)), other)
            == configured_accel(cfg, other),
{
    let p = shortcut_patch_v(name, accel);
    let e = p->Object_0;
    assert(keys_unique(e));
    assert(e.subrange(1, 1) =~= Seq::<(Seq<char>, JsonV)>::empty());
    assert(obj_get(e, name) == Some(e[0].1));
    if other != name {
        assert(obj_get(e.subrange(1, 1), other) is None);
        assert(obj_get(e, other) is None);
    }
    law_merge_patch_lookup(cfg, p, name);
    law_merge_patch_lookup(cfg, p, other);
    if accel.len() == 0 {
        assert(trim_start(accel) =~= accel);
        assert(trim(accel).len() == 0);
    }
}

} // verus!
