use vstd::prelude::*;

use crate::connection::{path_bool, path_flag};
use crate::json::{
    as_array, as_i64, as_str, as_u64, get, lemma_view_list_index, lemma_view_list_len, lookup_path,
    path_get, view_list, Json, JsonV,
};
use crate::text::{
    join, join_strings, own, split_char, str_eq, to_uppercase, trim_end_matches, trim_end_matches_str, upper_text,
};

verus! {

/// `o`, or `d` when absent.
pub open spec fn text_or(o: Option<Seq<char>>, d: Seq<char>) -> Seq<char> {
    match o {
        Some(s) => s,
        None => d,
    }
}

/// The text under `k`, empty when absent or not text.
pub open spec fn field_text(j: JsonV, k: Seq<char>) -> Seq<char> {
    text_or(as_str(get(j, k)), Seq::empty())
}

/// The text under `key`, or `default` when absent or not text.
pub fn text_field_or(j: &Json, key: &str, default: &str) -> (r: String)
    ensures
        r@ == text_or(as_str(get(j@, key@)), default@),
{
    match j.get(key) {
        Some(v) => match v.as_str() {
            Some(s) => own(s),
            None => own(default),
        },
        None => own(default),
    }
}

/// The text under `key`, empty when absent or not text.
pub fn text_field(j: &Json, key: &str) -> (r: String)
    ensures
        r@ == field_text(j@, key@),
{
    proof {
        reveal_strlit("");
    }
    text_field_or(j, key, "")
}

/// The non-negative integer under `key`, `0` when absent.
pub open spec fn field_u64(j: JsonV, k: Seq<char>) -> int {
    match as_u64(get(j, k)) {
        Some(n) => n,
        None => 0,
    }
}

pub fn u64_field(j: &Json, key: &str) -> (r: u64)
    ensures
        r as int == field_u64(j@, key@),
{
    match j.get(key) {
        Some(v) => match v.as_u64() {
            Some(n) => n,
            None => 0,
        },
        None => 0,
    }
}

/// The signed integer under `key`, `0` when absent.
pub open spec fn field_i64(j: JsonV, k: Seq<char>) -> int {
    match as_i64(get(j, k)) {
        Some(n) => n,
        None => 0,
    }
}

pub fn i64_field(j: &Json, key: &str) -> (r: i64)
    ensures
        r as int == field_i64(j@, key@),
{
    match j.get(key) {
        Some(v) => match v.as_i64() {
            Some(n) => n,
            None => 0,
        },
        None => 0,
    }
}

/// One routing rule (Rules page).
pub struct Rule {
    pub kind: String,
    pub payload: String,
    pub proxy: String,
}

/// Parses the `{ rules: [...] }` payload from `/rules` into [`Rule`]s.
pub fn parse_rules(value: &Json) -> (r: Vec<Rule>)
    ensures
        match as_array(get(value@, "rules"@)) {
            None => r.len() == 0,
            Some(a) => r.len() == a.len() && forall|i: int|
                0 <= i < a.len() ==> {
                    &&& (#[trigger] r@[i]).kind@ == field_text(a[i], "type"@)
                    &&& r@[i].payload@ == field_text(a[i], "payload"@)
                    &&& r@[i].proxy@ == field_text(a[i], "proxy"@)
                },
        },
{
    let mut out: Vec<Rule> = Vec::new();
    match value.get("rules") {
        Some(rules) => match rules.as_array() {
            Some(arr) => {
                let ghost a = view_list(arr@);
                proof {
                    lemma_view_list_len(arr@);
                }
                let mut i: usize = 0;
                while i < arr.len()
                    invariant
                        i <= arr.len(),
                        a == view_list(arr@),
                        a.len() == arr.len(),
                        out.len() == i,
                        forall|j: int|
                            0 <= j < i ==> {
                                &&& (#[trigger] out@[j]).kind@ == field_text(a[j], "type"@)
                                &&& out@[j].payload@ == field_text(a[j], "payload"@)
                                &&& out@[j].proxy@ == field_text(a[j], "proxy"@)
                            },
                    decreases arr.len() - i,
                {
                    proof {
                        lemma_view_list_index(arr@, i as int);
                    }
                    let it = &arr[i];
                    out.push(
                        Rule {
                            kind: text_field(it, "type"),
                            payload: text_field(it, "payload"),
                            proxy: text_field(it, "proxy"),
                        },
                    );
                    i += 1;
                }
                out
            },
            None => out,
        },
        None => out,
    }
}

} // verus!

verus! {

/// A single proxy node inside a group.
pub struct ProxyNode {
    pub name: String,
    pub kind: String,
    pub delay: Option<u32>,
}

/// A proxy group with its members and the current selection.
pub struct ProxyGroup {
    pub name: String,
    pub kind: String,
    pub now: String,
    pub all: Vec<ProxyNode>,
}

/// The latest delay test of a node: the `delay` of the last `history` entry,
/// cut to 32 bits, when positive.
pub open spec fn node_delay(node: JsonV) -> Option<u32> {
    match as_array(get(node, "history"@)) {
        Some(h) => if h.len() > 0 {
            match as_u64(get(h[h.len() - 1], "delay"@)) {
                Some(d) => if (d % 0x1_0000_0000) > 0 {
                    Some((d % 0x1_0000_0000) as u32)
                } else {
                    None
                },
                None => None,
            }
        } else {
            None
        },
        None => None,
    }
}

/// `node` as a [`ProxyNode`].
pub open spec fn node_matches(n: ProxyNode, node: JsonV) -> bool {
    &&& n.name@ == field_text(node, "name"@)
    &&& n.kind@ == field_text(node, "type"@)
    &&& n.delay == node_delay(node)
}

pub fn parse_node(node: &Json) -> (r: ProxyNode)
    ensures
        node_matches(r, node@),
{
    let name = text_field(node, "name");
    let kind = text_field(node, "type");
    let mut delay: Option<u32> = None;
    if let Some(h) = node.get("history") {
        if let Some(arr) = h.as_array() {
            proof {
                lemma_view_list_len(arr@);
            }
            if arr.len() > 0 {
                proof {
                    lemma_view_list_index(arr@, arr.len() - 1);
                }
                if let Some(d) = arr[arr.len() - 1].get("delay") {
                    if let Some(n) = d.as_u64() {
                        let t: u32 = (n % 0x1_0000_0000) as u32;
                        if t > 0 {
                            delay = Some(t);
                        }
                    }
                }
            }
        }
    }
    ProxyNode { name, kind, delay }
}

/// `g` as a [`ProxyGroup`].
pub open spec fn group_matches(g: ProxyGroup, v: JsonV) -> bool {
    &&& g.name@ == field_text(v, "name"@)
    &&& g.kind@ == field_text(v, "type"@)
    &&& g.now@ == field_text(v, "now"@)
    &&& match as_array(get(v, "all"@)) {
        None => g.all.len() == 0,
        Some(a) => g.all.len() == a.len() && forall|i: int|
            0 <= i < a.len() ==> node_matches(#[trigger] g.all@[i], a[i]),
    }
}

fn parse_group(g: &Json) -> (r: ProxyGroup)
    ensures
        group_matches(r, g@),
{
    let mut all: Vec<ProxyNode> = Vec::new();
    if let Some(nodes) = g.get("all") {
        if let Some(arr) = nodes.as_array() {
            let ghost a = view_list(arr@);
            proof {
                lemma_view_list_len(arr@);
            }
            let mut i: usize = 0;
            while i < arr.len()
                invariant
                    i <= arr.len(),
                    a == view_list(arr@),
                    a.len() == arr.len(),
                    all.len() == i,
                    forall|j: int| 0 <= j < i ==> node_matches(#[trigger] all@[j], a[j]),
                decreases arr.len() - i,
            {
                proof {
                    lemma_view_list_index(arr@, i as int);
                }
                all.push(parse_node(&arr[i]));
                i += 1;
            }
        }
    }
    ProxyGroup {
        name: text_field(g, "name"),
        kind: text_field(g, "type"),
        now: text_field(g, "now"),
        all,
    }
}

/// Parses the array of proxy groups into [`ProxyGroup`]s.
pub fn parse_groups(value: &Json) -> (r: Vec<ProxyGroup>)
    ensures
        match as_array(Some(value@)) {
            None => r.len() == 0,
            Some(a) => r.len() == a.len() && forall|i: int|
                0 <= i < a.len() ==> group_matches(#[trigger] r@[i], a[i]),
        },
{
    let mut out: Vec<ProxyGroup> = Vec::new();
    if let Some(arr) = value.as_array() {
        let ghost a = view_list(arr@);
        proof {
            lemma_view_list_len(arr@);
        }
        let mut i: usize = 0;
        while i < arr.len()
            invariant
                i <= arr.len(),
                a == view_list(arr@),
                a.len() == arr.len(),
                out.len() == i,
                forall|j: int| 0 <= j < i ==> group_matches(#[trigger] out@[j], a[j]),
            decreases arr.len() - i,
        {
            proof {
                lemma_view_list_index(arr@, i as int);
            }
            out.push(parse_group(&arr[i]));
            i += 1;
        }
    }
    out
}

/// A profile entry (subscription or local file).
pub struct ProfileItem {
    pub id: String,
    pub name: String,
    pub kind: String,
    pub is_current: bool,
    /// Subscription usage in bytes: consumed, quota, and expiry unix time; 0 when absent.
    pub used: u64,
    pub total: u64,
    pub expire: i64,
}

/// `p` as the [`ProfileItem`] for the entry `it` when `current` is the active id.
pub open spec fn profile_matches(p: ProfileItem, it: JsonV, current: Seq<char>) -> bool {
    let id = field_text(it, "id"@);
    let name = field_text(it, "name"@);
    let extra = match get(it, "extra"@) {
        Some(e) => e,
        None => JsonV::Null,
    };
    let up = field_u64(extra, "upload"@);
    let down = field_u64(extra, "download"@);
    &&& p.id@ == id
    &&& p.name@ == (if name.len() > 0 {
        name
    } else {
        id
    })
    &&& p.kind@ == text_or(as_str(get(it, "type"@)), "remote"@)
    &&& p.is_current == (id == current)
    &&& p.used as int == (if up + down > u64::MAX {
        u64::MAX as int
    } else {
        up + down
    })
    &&& p.total as int == field_u64(extra, "total"@)
    &&& p.expire as int == field_i64(extra, "expire"@)
}

fn parse_profile(it: &Json, current: &str) -> (r: ProfileItem)
    ensures
        profile_matches(r, it@, current@),
{
    let id = text_field(it, "id");
    let name0 = text_field(it, "name");
    let name = if !name0.as_str().is_empty() {
        name0
    } else {
        id.clone()
    };
    let kind = text_field_or(it, "type", "remote");
    let is_current = str_eq(id.as_str(), current);
    let (up, down, total, expire) = match it.get("extra") {
        Some(e) => (u64_field(e, "upload"), u64_field(e, "download"), u64_field(e, "total"), i64_field(e, "expire")),
        None => (0u64, 0u64, 0u64, 0i64),
    };
    let used = up.saturating_add(down);
    ProfileItem { id, name, kind, is_current, used, total, expire }
}

/// Parses `profile.yaml` (`{current, items: [...]}`) into [`ProfileItem`]s.
pub fn parse_profiles(cfg: &Json) -> (r: Vec<ProfileItem>)
    ensures
        match as_array(get(cfg@, "items"@)) {
            None => r.len() == 0,
            Some(a) => r.len() == a.len() && forall|i: int|
                0 <= i < a.len() ==> profile_matches(#[trigger] r@[i], a[i], field_text(cfg@, "current"@)),
        },
{
    let current = text_field(cfg, "current");
    let mut out: Vec<ProfileItem> = Vec::new();
    if let Some(items) = cfg.get("items") {
        if let Some(arr) = items.as_array() {
            let ghost a = view_list(arr@);
            proof {
                lemma_view_list_len(arr@);
            }
            let mut i: usize = 0;
            while i < arr.len()
                invariant
                    i <= arr.len(),
                    a == view_list(arr@),
                    a.len() == arr.len(),
                    out.len() == i,
                    current@ == field_text(cfg@, "current"@),
                    forall|j: int| 0 <= j < i ==> profile_matches(#[trigger] out@[j], a[j], current@),
                decreases arr.len() - i,
            {
                proof {
                    lemma_view_list_index(arr@, i as int);
                }
                out.push(parse_profile(&arr[i], current.as_str()));
                i += 1;
            }
        }
    }
    out
}

} // verus!

verus! {

/// The text members of an array, in order (other members are skipped).
pub open spec fn text_items(a: Seq<JsonV>) -> Seq<Seq<char>>
    decreases a.len(),
{
    if a.len() == 0 {
        Seq::empty()
    } else {
        let rest = text_items(a.drop_last());
        match a.last() {
            JsonV::Str(s) => rest.push(s),
            _ => rest,
        }
    }
}

/// The text members of an array.
pub fn collect_texts(arr: &Vec<Json>) -> (r: Vec<String>)
    ensures
        r@.map_values(|p: String| p@) == text_items(view_list(arr@)),
{
    let ghost a = view_list(arr@);
    proof {
        lemma_view_list_len(arr@);
        assert(Seq::<String>::empty().map_values(|p: String| p@) =~= text_items(a.subrange(0, 0)));
    }
    let mut out: Vec<String> = Vec::new();
    let mut i: usize = 0;
    while i < arr.len()
        invariant
            i <= arr.len(),
            a == view_list(arr@),
            a.len() == arr.len(),
            out@.map_values(|p: String| p@) == text_items(a.subrange(0, i as int)),
        decreases arr.len() - i,
    {
        proof {
            lemma_view_list_index(arr@, i as int);
            assert(a.subrange(0, i + 1).drop_last() =~= a.subrange(0, i as int));
        }
        let ghost before = out@;
        if let Some(s) = arr[i].as_str() {
            out.push(own(s));
            proof {
                assert(out@.map_values(|p: String| p@) =~= before.map_values(|p: String| p@).push(s@));
            }
        }
        i += 1;
    }
    assert(a.subrange(0, arr.len() as int) =~= a);
    out
}

/// `v` in reverse order.
pub fn reversed(v: Vec<String>) -> (r: Vec<String>)
    ensures
        r@.map_values(|p: String| p@) == v@.map_values(|p: String| p@).reverse(),
{
    let mut out: Vec<String> = Vec::new();
    let mut v = v;
    let ghost orig = v@;
    while v.len() > 0
        invariant
            v@ == orig.subrange(0, v.len() as int),
            out.len() + v.len() == orig.len(),
            forall|i: int| 0 <= i < out.len() ==> out@[i] == orig[orig.len() - 1 - i],
        decreases v.len(),
    {
        let x = v.pop().unwrap();
        out.push(x);
    }
    let ghost a = out@.map_values(|p: String| p@);
    let ghost b = orig.map_values(|p: String| p@).reverse();
    assert(a =~= b);
    out
}

/// A single connection (shown in a process's detail view).
pub struct ConnItem {
    pub id: String,
    pub host: String,
    pub network: String,
    pub chains: String,
    pub rule: String,
    pub up: u64,
    pub down: u64,
    pub conn_type: String,
    pub dest_ip: String,
    pub dest_port: String,
    pub dest_geoip: String,
    pub dest_asn: String,
    pub src_ip: String,
    pub src_port: String,
    pub process: String,
    pub process_path: String,
    pub dns_mode: String,
}

impl ConnItem {
    /// A copy of this connection.
    pub fn duplicate(&self) -> (r: ConnItem)
        ensures
            r == *self,
    {
        ConnItem {
            id: self.id.clone(),
            host: self.host.clone(),
            network: self.network.clone(),
            chains: self.chains.clone(),
            rule: self.rule.clone(),
            up: self.up,
            down: self.down,
            conn_type: self.conn_type.clone(),
            dest_ip: self.dest_ip.clone(),
            dest_port: self.dest_port.clone(),
            dest_geoip: self.dest_geoip.clone(),
            dest_asn: self.dest_asn.clone(),
            src_ip: self.src_ip.clone(),
            src_port: self.src_port.clone(),
            process: self.process.clone(),
            process_path: self.process_path.clone(),
            dns_mode: self.dns_mode.clone(),
        }
    }
}

pub open spec fn meta_of(c: JsonV) -> JsonV {
    match get(c, "metadata"@) {
        Some(m) => m,
        None => JsonV::Null,
    }
}

pub open spec fn meta_text(c: JsonV, k: Seq<char>) -> Option<Seq<char>> {
    as_str(get(meta_of(c), k))
}

pub open spec fn nonempty(o: Option<Seq<char>>) -> Option<Seq<char>> {
    match o {
        Some(s) => if s.len() > 0 {
            Some(s)
        } else {
            None
        },
        None => None,
    }
}

/// The process a connection belongs to: the process name without `.exe`,
/// else the host, else a dash.
pub open spec fn conn_process_name(c: JsonV) -> Seq<char> {
    match nonempty(meta_text(c, "process"@)) {
        Some(p) => trim_end_matches(p, ".exe"@),
        None => match nonempty(meta_text(c, "host"@)) {
            Some(h) => h,
            None => "—"@,
        },
    }
}

pub open spec fn conn_host(c: JsonV) -> Seq<char> {
    let h = match nonempty(meta_text(c, "host"@)) {
        Some(h) => h,
        None => text_or(meta_text(c, "destinationIP"@), "—"@),
    };
    let port = text_or(meta_text(c, "destinationPort"@), Seq::empty());
    if port.len() == 0 {
        h
    } else {
        h + ":"@ + port
    }
}

pub open spec fn conn_network(c: JsonV) -> Seq<char> {
    let n = text_or(meta_text(c, "network"@), Seq::empty());
    let t = text_or(meta_text(c, "type"@), Seq::empty());
    network_label_v(if n.len() > 0 { Some(upper_text(n)) } else { None }, t)
}

/// The network column: the network in capitals (when there is one), then
/// `·` and the connection type when there is one.
pub open spec fn network_label_v(upper: Option<Seq<char>>, ty: Seq<char>) -> Seq<char> {
    match upper {
        Some(u) => if ty.len() > 0 {
            u + " · "@ + ty
        } else {
            u
        },
        None => ty,
    }
}

/// The network column from the network in capitals (`None` when the
/// connection names none) and the connection type (see [`network_label_v`]).
pub fn network_label(upper: Option<String>, ty: String) -> (r: String)
    ensures
        r@ == network_label_v(
            match upper {
                Some(u) => Some(u@),
                None => None,
            },
            ty@,
        ),
{
    match upper {
        Some(u) => if !ty.as_str().is_empty() {
            let mut s = u;
            s.push_str(" · ");
            s.push_str(ty.as_str());
            s
        } else {
            u
        },
        None => ty,
    }
}

pub open spec fn conn_chains(c: JsonV) -> Seq<char> {
    match as_array(get(c, "chains"@)) {
        Some(a) => join(text_items(a).reverse(), " → "@),
        None => Seq::empty(),
    }
}

pub open spec fn conn_rule(c: JsonV) -> Seq<char> {
    let r = field_text(c, "rule"@);
    let p = field_text(c, "rulePayload"@);
    if p.len() == 0 {
        r
    } else {
        r + "("@ + p + ")"@
    }
}

pub open spec fn conn_geoip(c: JsonV) -> Seq<char> {
    match as_array(get(meta_of(c), "destinationGeoIP"@)) {
        Some(a) => join(text_items(a), ", "@),
        None => Seq::empty(),
    }
}

/// `item` as the connection entry `c` describes it.
pub open spec fn conn_matches(item: ConnItem, c: JsonV) -> bool {
    &&& item.id@ == field_text(c, "id"@)
    &&& item.host@ == conn_host(c)
    &&& item.network@ == conn_network(c)
    &&& item.chains@ == conn_chains(c)
    &&& item.rule@ == conn_rule(c)
    &&& item.up as int == field_u64(c, "upload"@)
    &&& item.down as int == field_u64(c, "download"@)
    &&& item.conn_type@ == text_or(meta_text(c, "type"@), Seq::empty())
    &&& item.dest_ip@ == text_or(meta_text(c, "destinationIP"@), Seq::empty())
    &&& item.dest_port@ == text_or(meta_text(c, "destinationPort"@), Seq::empty())
    &&& item.dest_geoip@ == conn_geoip(c)
    &&& item.dest_asn@ == text_or(meta_text(c, "destinationIPASN"@), Seq::empty())
    &&& item.src_ip@ == text_or(meta_text(c, "sourceIP"@), Seq::empty())
    &&& item.src_port@ == text_or(meta_text(c, "sourcePort"@), Seq::empty())
    &&& item.process@ == text_or(meta_text(c, "process"@), Seq::empty())
    &&& item.process_path@ == text_or(meta_text(c, "processPath"@), Seq::empty())
    &&& item.dns_mode@ == text_or(meta_text(c, "dnsMode"@), Seq::empty())
}

/// Law: the host column of a connection is its metadata `host` when that is
/// a non-empty text; else its destination IP (the same text as the
/// destination-IP column) when that is a text; else a dash. A port, when
/// there is one, follows after a colon (the same text as the port column).
pub proof fn law_conn_host_falls_back(item: ConnItem, c: JsonV)
    requires
        conn_matches(item, c),
    ensures
        ({
            let base = match meta_text(c, "host"@) {
                Some(h) => if h.len() > 0 {
                    h
                } else {
                    match meta_text(c, "destinationIP"@) {
                        Some(ip) => ip,
                        None => "—"@,
                    }
                },
                None => match meta_text(c, "destinationIP"@) {
                    Some(ip) => ip,
                    None => "—"@,
                },
            };
            &&& item.host@.len() >= base.len()
            &&& item.host@.subrange(0, base.len() as int) == base
            &&& item.dest_port@.len() == 0 ==> item.host@ == base
            &&& item.dest_port@.len() > 0 ==> item.host@ == base + ":"@ + item.dest_port@
            &&& (!(meta_text(c, "host"@) matches Some(h) && h.len() > 0) && meta_text(c, "destinationIP"@) is Some)
                ==> item.host@.subrange(0, item.dest_ip@.len() as int) == item.dest_ip@
        }),
{
    let base = match meta_text(c, "host"@) {
        Some(h) => if h.len() > 0 {
            h
        } else {
            match meta_text(c, "destinationIP"@) {
                Some(ip) => ip,
                None => "—"@,
            }
        },
        None => match meta_text(c, "destinationIP"@) {
            Some(ip) => ip,
            None => "—"@,
        },
    };
    let port = item.dest_port@;
    if port.len() > 0 {
        assert((base + ":"@ + port).subrange(0, base.len() as int) =~= base);
    } else {
        assert(item.host@.subrange(0, base.len() as int) =~= base);
    }
}

/// Trimming trailing copies of a four-letter suffix leaves a prefix that no
/// longer ends with it, followed in the original only by copies of it.
proof fn lemma_trim_end_matches4(s: Seq<char>, suf: Seq<char>)
    requires
        suf.len() == 4,
    ensures
        ({
            let t = trim_end_matches(s, suf);
            &&& crate::text::starts_with(s, t)
            &&& !crate::text::ends_with(t, suf)
            &&& (s.len() - t.len()) % 4 == 0
            &&& forall|k: int| 0 <= k < s.len() - t.len() ==> #[trigger] s[t.len() + k] == suf[k % 4]
        }),
    decreases s.len(),
{
    if crate::text::ends_with(s, suf) {
        let s1 = s.subrange(0, s.len() - 4);
        lemma_trim_end_matches4(s1, suf);
        let t = trim_end_matches(s, suf);
        assert(t == trim_end_matches(s1, suf));
        let d = s1.len() - t.len();
        assert(s.subrange(0, t.len() as int) =~= s1.subrange(0, t.len() as int));
        assert forall|k: int| 0 <= k < s.len() - t.len() implies #[trigger] s[t.len() + k] == suf[k % 4] by {
            if k < d {
                assert(s1[t.len() + k] == suf[k % 4]);
                assert(s[t.len() + k] == s1[t.len() + k]);
            } else {
                let q = k - d;
                assert(s.subrange(s.len() - 4, s.len() as int)[q] == suf[q]);
                assert(k % 4 == q % 4);
            }
        }
    } else {
        assert(s.subrange(0, s.len() as int) =~= s);
    }
}

/// Law: the process a connection is grouped under is its `process` text
/// with every trailing `.exe` cut off (what is left is the start of the
/// process text, no longer ends in `.exe`, and only `.exe` copies were cut);
/// for a connection without a process, its `host` text; else a dash.
pub proof fn law_conn_process_name(c: JsonV)
    ensures
        ({
            let p = text_or(meta_text(c, "process"@), Seq::empty());
            let h = text_or(meta_text(c, "host"@), Seq::empty());
            let name = conn_process_name(c);
            &&& p.len() > 0 ==> {
                &&& crate::text::starts_with(p, name)
                &&& !crate::text::ends_with(name, ".exe"@)
                &&& (p.len() - name.len()) % 4 == 0
                &&& forall|k: int| 0 <= k < p.len() - name.len() ==> #[trigger] p[name.len() + k] == ".exe"@[k % 4]
            }
            &&& (p.len() == 0 && h.len() > 0) ==> name == h
            &&& (p.len() == 0 && h.len() == 0) ==> name == "—"@
        }),
{
    reveal_strlit(".exe");
    let p = text_or(meta_text(c, "process"@), Seq::empty());
    if p.len() > 0 {
        lemma_trim_end_matches4(p, ".exe"@);
    }
}

/// The text under `key` of the connection's `metadata`, or `default`.
fn meta_field_or(meta: Option<&Json>, key: &str, default: &str) -> (r: String)
    ensures
        r@ == text_or(
            as_str(
                get(
                    match meta {
                        Some(m) => m@,
                        None => JsonV::Null,
                    },
                    key@,
                ),
            ),
            default@,
        ),
{
    match meta {
        Some(m) => text_field_or(m, key, default),
        None => own(default),
    }
}

/// Parses one `/connections` entry into `(id, process-name, item)`.
pub fn parse_conn(c: &Json) -> (r: (String, String, ConnItem))
    ensures
        r.0@ == field_text(c@, "id"@),
        r.1@ == conn_process_name(c@),
        conn_matches(r.2, c@),
{
    proof {
        reveal_strlit("");
        assert(""@ =~= Seq::<char>::empty());
    }
    let id = text_field(c, "id");
    let meta = c.get("metadata");
    let process = meta_field_or(meta, "process", "");
    let host_raw = meta_field_or(meta, "host", "");
    let name = if !process.as_str().is_empty() {
        trim_end_matches_str(process.as_str(), ".exe")
    } else if !host_raw.as_str().is_empty() {
        host_raw.clone()
    } else {
        own("—")
    };
    let up = u64_field(c, "upload");
    let down = u64_field(c, "download");
    let dest_ip = meta_field_or(meta, "destinationIP", "");
    let host0 = if !host_raw.as_str().is_empty() {
        host_raw.clone()
    } else {
        meta_field_or(meta, "destinationIP", "—")
    };
    let dest_port = meta_field_or(meta, "destinationPort", "");
    let host = if dest_port.as_str().is_empty() {
        host0
    } else {
        let mut h = host0;
        h.push_str(":");
        h.push_str(dest_port.as_str());
        h
    };
    let n = meta_field_or(meta, "network", "");
    let ty = meta_field_or(meta, "type", "");
    let upper = if !n.as_str().is_empty() {
        Some(to_uppercase(n.as_str()))
    } else {
        None
    };
    let network = network_label(upper, ty.clone());
    let chains = match c.get("chains") {
        Some(ch) => match ch.as_array() {
            Some(a) => join_strings(&reversed(collect_texts(a)), " → "),
            None => own(""),
        },
        None => own(""),
    };
    let r = text_field(c, "rule");
    let payload = text_field(c, "rulePayload");
    let rule = if payload.as_str().is_empty() {
        r
    } else {
        let mut s = r;
        s.push_str("(");
        s.push_str(payload.as_str());
        s.push_str(")");
        s
    };
    let geo = match meta {
        Some(m) => match m.get("destinationGeoIP") {
            Some(g) => match g.as_array() {
                Some(a) => join_strings(&collect_texts(a), ", "),
                None => own(""),
            },
            None => own(""),
        },
        None => own(""),
    };
    let item = ConnItem {
        id: id.clone(),
        host,
        network,
        chains,
        rule,
        up,
        down,
        conn_type: ty,
        dest_ip,
        dest_port,
        dest_geoip: geo,
        dest_asn: meta_field_or(meta, "destinationIPASN", ""),
        src_ip: meta_field_or(meta, "sourceIP", ""),
        src_port: meta_field_or(meta, "sourcePort", ""),
        process,
        process_path: meta_field_or(meta, "processPath", ""),
        dns_mode: meta_field_or(meta, "dnsMode", ""),
    };
    assert(item.id@ == field_text(c@, "id"@));
    assert(item.host@ == conn_host(c@));
    assert(item.network@ == conn_network(c@));
    assert(item.chains@ == conn_chains(c@));
    assert(item.rule@ == conn_rule(c@));
    assert(item.dest_geoip@ == conn_geoip(c@));
    (id, name, item)
}

/// Log lines kept in memory.
pub const MAX_LOGS: usize = 1000;

/// One log line for the Logs page.
pub struct LogLine {
    pub time: String,
    pub level: String,
    pub message: String,
}

pub open spec fn line_view(l: LogLine) -> (Seq<char>, Seq<char>, Seq<char>) {
    (l.time@, l.level@, l.message@)
}

pub open spec fn lines_view(v: Seq<LogLine>) -> Seq<(Seq<char>, Seq<char>, Seq<char>)> {
    v.map_values(|l: LogLine| line_view(l))
}

/// The core's log lines, newest last, with a counter of every line ever
/// added (it keeps growing, wrapping around, where the buffer is capped).
pub struct LogBuffer {
    pub logs: Vec<LogLine>,
    pub log_seq: usize,
}

impl LogBuffer {
    pub fn new() -> (r: LogBuffer)
        ensures
            r.logs@.len() == 0,
            r.log_seq == 0,
    {
        LogBuffer { logs: Vec::new(), log_seq: 0 }
    }

    /// Appends a streamed log entry (`type`, default `info`; `payload`) read
    /// at `time`; an entry without text is ignored. The oldest line goes when
    /// the buffer is full.
    pub fn push_log(&mut self, entry: &Json, time: String)
        requires
            old(self).logs@.len() <= MAX_LOGS,
        ensures
            final(self).logs@.len() <= MAX_LOGS,
            field_text(entry@, "payload"@).len() == 0 ==> *final(self) == *old(self),
            field_text(entry@, "payload"@).len() > 0 ==> {
                &&& lines_view(final(self).logs@) == push_log_v(
                    lines_view(old(self).logs@),
                    (time@, text_or(as_str(get(entry@, "type"@)), "info"@), field_text(entry@, "payload"@)),
                )
                &&& final(self).log_seq == (if old(self).log_seq == usize::MAX {
                    0
                } else {
                    old(self).log_seq + 1
                })
            },
    {
        let level = text_field_or(entry, "type", "info");
        let message = text_field(entry, "payload");
        if message.as_str().is_empty() {
            return;
        }
        let ghost l0 = lines_view(self.logs@);
        if self.logs.len() >= MAX_LOGS {
            self.logs.remove(0);
            assert(lines_view(self.logs@) =~= l0.drop_first());
        }
        let ghost l1 = lines_view(self.logs@);
        self.log_seq = if self.log_seq == usize::MAX {
            0
        } else {
            self.log_seq + 1
        };
        let line = LogLine { time, level, message };
        self.logs.push(line);
        assert(lines_view(self.logs@) =~= l1.push(line_view(line)));
    }

    /// Empties the buffer (the counter stays).
    pub fn clear_logs(&mut self)
        ensures
            final(self).logs@.len() == 0,
            final(self).log_seq == old(self).log_seq,
    {
        self.logs.clear();
    }
}

/// The lines after one more is appended to a full-or-not buffer.
pub open spec fn push_log_v(
    logs: Seq<(Seq<char>, Seq<char>, Seq<char>)>,
    line: (Seq<char>, Seq<char>, Seq<char>),
) -> Seq<(Seq<char>, Seq<char>, Seq<char>)> {
    if logs.len() >= MAX_LOGS {
        logs.drop_first().push(line)
    } else {
        logs.push(line)
    }
}

/// The first group named `name`, or -1.
pub open spec fn group_pos(gs: Seq<ProxyGroup>, name: Seq<char>) -> int
    decreases gs.len(),
{
    if gs.len() == 0 {
        -1
    } else {
        let r = group_pos(gs.drop_last(), name);
        if r >= 0 {
            r
        } else if gs.last().name@ == name {
            gs.len() - 1
        } else {
            -1
        }
    }
}

/// The first node named `name`, or -1.
pub open spec fn node_pos(ns: Seq<ProxyNode>, name: Seq<char>) -> int
    decreases ns.len(),
{
    if ns.len() == 0 {
        -1
    } else {
        let r = node_pos(ns.drop_last(), name);
        if r >= 0 {
            r
        } else if ns.last().name@ == name {
            ns.len() - 1
        } else {
            -1
        }
    }
}

pub proof fn lemma_group_pos(gs: Seq<ProxyGroup>, name: Seq<char>, k: int)
    requires
        0 <= k <= gs.len(),
    ensures
        -1 <= group_pos(gs, name) < gs.len(),
        group_pos(gs.subrange(0, k), name) >= 0 ==> group_pos(gs, name) == group_pos(
            gs.subrange(0, k),
            name,
        ),
    decreases gs.len() - k,
{
    if k < gs.len() {
        assert(gs.subrange(0, k + 1).drop_last() =~= gs.subrange(0, k));
        lemma_group_pos(gs, name, k + 1);
    } else {
        assert(gs.subrange(0, k) =~= gs);
        lemma_group_pos_bound(gs, name);
    }
}

pub proof fn lemma_group_pos_bound(gs: Seq<ProxyGroup>, name: Seq<char>)
    ensures
        -1 <= group_pos(gs, name) < gs.len(),
    decreases gs.len(),
{
    if gs.len() > 0 {
        lemma_group_pos_bound(gs.drop_last(), name);
    }
}

pub proof fn lemma_node_pos(ns: Seq<ProxyNode>, name: Seq<char>, k: int)
    requires
        0 <= k <= ns.len(),
    ensures
        -1 <= node_pos(ns, name) < ns.len(),
        node_pos(ns.subrange(0, k), name) >= 0 ==> node_pos(ns, name) == node_pos(
            ns.subrange(0, k),
            name,
        ),
    decreases ns.len() - k,
{
    if k < ns.len() {
        assert(ns.subrange(0, k + 1).drop_last() =~= ns.subrange(0, k));
        lemma_node_pos(ns, name, k + 1);
    } else {
        assert(ns.subrange(0, k) =~= ns);
        lemma_node_pos_bound(ns, name);
    }
}

pub proof fn lemma_node_pos_bound(ns: Seq<ProxyNode>, name: Seq<char>)
    ensures
        -1 <= node_pos(ns, name) < ns.len(),
    decreases ns.len(),
{
    if ns.len() > 0 {
        lemma_node_pos_bound(ns.drop_last(), name);
    }
}

fn find_group_by_name(gs: &Vec<ProxyGroup>, name: &str) -> (r: usize)
    ensures
        r <= gs.len(),
        r < gs.len() ==> group_pos(gs@, name@) == r as int,
        r == gs.len() ==> group_pos(gs@, name@) == -1,
{
    let mut i: usize = 0;
    while i < gs.len()
        invariant
            i <= gs.len(),
            group_pos(gs@.subrange(0, i as int), name@) == -1,
        decreases gs.len() - i,
    {
        assert(gs@.subrange(0, i + 1).drop_last() =~= gs@.subrange(0, i as int));
        if str_eq(gs[i].name.as_str(), name) {
            proof {
                lemma_group_pos(gs@, name@, i + 1);
            }
            return i;
        }
        i += 1;
    }
    assert(gs@.subrange(0, gs.len() as int) =~= gs@);
    i
}

fn find_node_by_name(ns: &Vec<ProxyNode>, name: &str) -> (r: usize)
    ensures
        r <= ns.len(),
        r < ns.len() ==> node_pos(ns@, name@) == r as int,
        r == ns.len() ==> node_pos(ns@, name@) == -1,
{
    let mut i: usize = 0;
    while i < ns.len()
        invariant
            i <= ns.len(),
            node_pos(ns@.subrange(0, i as int), name@) == -1,
        decreases ns.len() - i,
    {
        assert(ns@.subrange(0, i + 1).drop_last() =~= ns@.subrange(0, i as int));
        if str_eq(ns[i].name.as_str(), name) {
            proof {
                lemma_node_pos(ns@, name@, i + 1);
            }
            return i;
        }
        i += 1;
    }
    assert(ns@.subrange(0, ns.len() as int) =~= ns@);
    i
}

/// Records a node's delay after a delay test: the first node named `node`
/// of the first group named `group` gets `delay`; nothing else changes.
pub fn set_node_delay(groups: &mut Vec<ProxyGroup>, group: &str, node: &str, delay: Option<u32>)
    ensures
        final(groups)@.len() == old(groups)@.len(),
        ({
            let gi = group_pos(old(groups)@, group@);
            let ni = if gi >= 0 {
                node_pos(old(groups)@[gi].all@, node@)
            } else {
                -1
            };
            if gi >= 0 && ni >= 0 {
                let g = old(groups)@[gi];
                &&& forall|j: int| 0 <= j < old(groups)@.len() && j != gi ==> final(groups)@[j] == old(groups)@[j]
                &&& final(groups)@[gi].name == g.name
                &&& final(groups)@[gi].kind == g.kind
                &&& final(groups)@[gi].now == g.now
                &&& final(groups)@[gi].all@.len() == g.all@.len()
                &&& forall|j: int| 0 <= j < g.all@.len() && j != ni ==> final(groups)@[gi].all@[j] == g.all@[j]
                &&& final(groups)@[gi].all@[ni].name == g.all@[ni].name
                &&& final(groups)@[gi].all@[ni].kind == g.all@[ni].kind
                &&& final(groups)@[gi].all@[ni].delay == delay
            } else {
                final(groups)@ == old(groups)@
            }
        }),
{
    let gi = find_group_by_name(groups, group);
    proof {
        lemma_group_pos_bound(groups@, group@);
    }
    if gi == groups.len() {
        return;
    }
    let ni = find_node_by_name(&groups[gi].all, node);
    proof {
        lemma_node_pos_bound(groups@[gi as int].all@, node@);
    }
    if ni == groups[gi].all.len() {
        return;
    }
    let ghost before = groups@;
    let g = groups.remove(gi);
    let mut all = g.all;
    let n = all.remove(ni);
    all.insert(ni, ProxyNode { name: n.name, kind: n.kind, delay });
    groups.insert(gi, ProxyGroup { name: g.name, kind: g.kind, now: g.now, all });
    assert(groups@.len() == before.len());
    assert forall|j: int| 0 <= j < before.len() && j != gi implies groups@[j] == before[j] by {
        if j < gi {
        } else {
        }
    }
}

/// A value of the controlled core config by dot path.
pub fn ctl<'a>(controled_config: &'a Json, path: &str) -> (r: Option<&'a Json>)
    ensures
        match r {
            Some(v) => path_get(controled_config@, split_char(path@, '.')) == Some(v@),
            None => path_get(controled_config@, split_char(path@, '.')) is None,
        },
{
    lookup_path(controled_config, path)
}

/// A boolean of the controlled core config by dot path, else `default`.
pub fn ctl_bool(controled_config: &Json, path: &str, default: bool) -> (r: bool)
    ensures
        r == path_flag(controled_config@, path@, default),
{
    path_bool(controled_config, path, default)
}

/// A boolean of the app config by dot path (e.g. `sysProxy.enable`); false
/// when absent or no boolean.
pub fn app_flag(app_config: &Json, path: &str) -> (r: bool)
    ensures
        r == path_flag(app_config@, path@, false),
{
    path_bool(app_config, path, false)
}

} // verus!
