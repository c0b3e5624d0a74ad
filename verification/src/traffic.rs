use vstd::prelude::*;

use crate::json::{as_array, get, lemma_view_list_index, lemma_view_list_len, view_list, Json, JsonV};
use crate::state::{conn_matches, conn_process_name, field_text, field_u64, parse_conn, u64_field, ConnItem};
use crate::text::{in_list, str_eq};

verus! {

/// Where a value with key `k` goes in a list sorted by descending key: after
/// every entry whose key is at least `k` (so equal keys keep their order).
pub open spec fn insert_pos<T>(s: Seq<T>, k: int, key: spec_fn(T) -> int) -> nat
    decreases s.len(),
{
    if s.len() == 0 {
        0
    } else if key(s[0]) < k {
        0
    } else {
        1 + insert_pos(s.drop_first(), k, key)
    }
}

/// `s` sorted by descending key, stably (what a stable sort by
/// `Reverse(key)` gives).
pub open spec fn sort_desc<T>(s: Seq<T>, key: spec_fn(T) -> int) -> Seq<T>
    decreases s.len(),
{
    if s.len() == 0 {
        s
    } else {
        let r = sort_desc(s.drop_last(), key);
        r.insert(insert_pos(r, key(s.last()), key) as int, s.last())
    }
}

pub proof fn lemma_insert_pos<T>(s: Seq<T>, k: int, key: spec_fn(T) -> int, p: int)
    requires
        0 <= p <= s.len(),
        forall|j: int| 0 <= j < p ==> key(#[trigger] s[j]) >= k,
        p < s.len() ==> key(s[p]) < k,
    ensures
        insert_pos(s, k, key) == p,
    decreases s.len(),
{
    if s.len() > 0 && p > 0 {
        assert(key(s[0]) >= k);
        let t = s.drop_first();
        assert forall|j: int| 0 <= j < p - 1 implies key(#[trigger] t[j]) >= k by {
            assert(t[j] == s[j + 1]);
        }
        if p - 1 < t.len() {
            assert(t[p - 1] == s[p]);
        }
        lemma_insert_pos(t, k, key, p - 1);
    }
}

pub proof fn lemma_sort_desc_len<T>(s: Seq<T>, key: spec_fn(T) -> int)
    ensures
        sort_desc(s, key).len() == s.len(),
        forall|k: int| #[trigger] insert_pos(sort_desc(s, key), k, key) <= s.len(),
    decreases s.len(),
{
    if s.len() > 0 {
        lemma_sort_desc_len(s.drop_last(), key);
    }
    assert forall|k: int| #[trigger] insert_pos(sort_desc(s, key), k, key) <= s.len() by {
        lemma_insert_pos_bound(sort_desc(s, key), k, key);
    }
}

pub proof fn lemma_insert_pos_bound<T>(s: Seq<T>, k: int, key: spec_fn(T) -> int)
    ensures
        insert_pos(s, k, key) <= s.len(),
    decreases s.len(),
{
    if s.len() > 0 {
        lemma_insert_pos_bound(s.drop_first(), k, key);
    }
}

/// A connection's traffic, the key connections are ordered by.
pub open spec fn item_key() -> spec_fn(ConnItem) -> int {
    |c: ConnItem| c.up + c.down
}

/// The position where an item with traffic `k` goes in `out`.
fn item_insert_pos(out: &Vec<ConnItem>, k: u128) -> (p: usize)
    ensures
        p as int == insert_pos(out@, k as int, item_key()),
{
    let mut p: usize = 0;
    while p < out.len() && (out[p].up as u128 + out[p].down as u128) >= k
        invariant
            p <= out.len(),
            forall|j: int| 0 <= j < p ==> (item_key())(#[trigger] out@[j]) >= k,
        decreases out.len() - p,
    {
        p += 1;
    }
    proof {
        lemma_insert_pos(out@, k as int, item_key(), p as int);
    }
    p
}

/// Connections ordered by descending traffic, stably.
pub fn sort_items(v: Vec<ConnItem>) -> (r: Vec<ConnItem>)
    ensures
        r@ == sort_desc(v@, item_key()),
{
    let mut out: Vec<ConnItem> = Vec::new();
    let mut rest = v;
    let ghost orig = rest@;
    let mut taken: Vec<ConnItem> = Vec::new();
    let mut i: usize = 0;
    let n = rest.len();
    assert(orig.subrange(0, 0) =~= Seq::<ConnItem>::empty());
    while i < n
        invariant
            n == orig.len(),
            i <= n,
            rest@ == orig,
            out@ == sort_desc(orig.subrange(0, i as int), item_key()),
        decreases n - i,
    {
        let x = rest[i].duplicate();
        let k: u128 = x.up as u128 + x.down as u128;
        let p = item_insert_pos(&out, k);
        proof {
            let pre = orig.subrange(0, i + 1);
            assert(pre.drop_last() =~= orig.subrange(0, i as int));
            assert(pre.last() == x);
            lemma_sort_desc_len(orig.subrange(0, i as int), item_key());
        }
        out.insert(p, x);
        i += 1;
    }
    assert(orig.subrange(0, n as int) =~= orig);
    out
}

/// The active (or closed) connections of one process.
pub struct ConnProcess {
    pub name: String,
    pub count: usize,
    /// Bytes sent over all its connections.
    pub up: u128,
    /// Bytes received over all its connections.
    pub down: u128,
    /// The executable's path, if any connection named it.
    pub process_path: String,
    pub conns: Vec<ConnItem>,
}

/// The value of a [`ConnProcess`].
pub struct ProcV {
    pub name: Seq<char>,
    pub count: int,
    pub up: int,
    pub down: int,
    pub path: Seq<char>,
    pub conns: Seq<ConnItem>,
}

impl View for ConnProcess {
    type V = ProcV;

    open spec fn view(&self) -> ProcV {
        ProcV {
            name: self.name@,
            count: self.count as int,
            up: self.up as int,
            down: self.down as int,
            path: self.process_path@,
            conns: self.conns@,
        }
    }
}

pub open spec fn procs_view(v: Seq<ConnProcess>) -> Seq<ProcV> {
    v.map_values(|p: ConnProcess| p@)
}

/// The first group named `name`, or -1.
pub open spec fn group_index(gs: Seq<ProcV>, name: Seq<char>) -> int
    decreases gs.len(),
{
    if gs.len() == 0 {
        -1
    } else {
        let r = group_index(gs.drop_last(), name);
        if r >= 0 {
            r
        } else if gs.last().name == name {
            gs.len() - 1
        } else {
            -1
        }
    }
}

/// One connection counted into its process's group (a new group at the end
/// for a process not seen yet).
pub open spec fn add_to_groups(gs: Seq<ProcV>, name: Seq<char>, item: ConnItem) -> Seq<ProcV> {
    let i = group_index(gs, name);
    if i < 0 {
        gs.push(
            ProcV {
                name,
                count: 1,
                up: item.up as int,
                down: item.down as int,
                path: item.process_path@,
                conns: seq![item],
            },
        )
    } else {
        let g = gs[i];
        gs.update(
            i,
            ProcV {
                name: g.name,
                count: g.count + 1,
                up: g.up + item.up,
                down: g.down + item.down,
                path: if g.path.len() == 0 && item.process_path@.len() > 0 {
                    item.process_path@
                } else {
                    g.path
                },
                conns: g.conns.push(item),
            },
        )
    }
}

/// `(process, connection)` pairs gathered by process, in order of first
/// appearance.
pub open spec fn gather(items: Seq<(Seq<char>, ConnItem)>) -> Seq<ProcV>
    decreases items.len(),
{
    if items.len() == 0 {
        Seq::empty()
    } else {
        add_to_groups(gather(items.drop_last()), items.last().0, items.last().1)
    }
}

/// A group's traffic, the key groups are ordered by.
pub open spec fn proc_key() -> spec_fn(ProcV) -> int {
    |g: ProcV| g.up + g.down
}

pub open spec fn with_sorted_conns(g: ProcV) -> ProcV {
    ProcV { conns: sort_desc(g.conns, item_key()), ..g }
}

/// Connections grouped by process, each group's connections and the groups
/// themselves ordered by descending traffic (stably).
pub open spec fn group_v(items: Seq<(Seq<char>, ConnItem)>) -> Seq<ProcV> {
    sort_desc(gather(items).map_values(|g: ProcV| with_sorted_conns(g)), proc_key())
}

pub open spec fn pairs_view(v: Seq<(String, ConnItem)>) -> Seq<(Seq<char>, ConnItem)> {
    v.map_values(|x: (String, ConnItem)| (x.0@, x.1))
}

/// Whether `a1 + a2 >= b1 + b2`.
fn sum_ge(a1: u128, a2: u128, b1: u128, b2: u128) -> (r: bool)
    ensures
        r == (a1 + a2 >= b1 + b2),
{
    if a1 >= b1 {
        let d = a1 - b1;
        if b2 <= a2 {
            true
        } else {
            d >= b2 - a2
        }
    } else {
        let d = b1 - a1;
        if a2 >= b2 {
            a2 - b2 >= d
        } else {
            false
        }
    }
}

/// The position of the first group named `name`, or `gs.len()`.
fn find_group(gs: &Vec<ConnProcess>, name: &str) -> (r: usize)
    ensures
        r <= gs.len(),
        r < gs.len() ==> group_index(procs_view(gs@), name@) == r as int,
        r == gs.len() ==> group_index(procs_view(gs@), name@) == -1,
{
    let ghost gv = procs_view(gs@);
    let mut i: usize = 0;
    while i < gs.len()
        invariant
            i <= gs.len(),
            gv == procs_view(gs@),
            group_index(gv.subrange(0, i as int), name@) == -1,
        decreases gs.len() - i,
    {
        assert(gv.subrange(0, i + 1).drop_last() =~= gv.subrange(0, i as int));
        if str_eq(gs[i].name.as_str(), name) {
            proof {
                lemma_group_index_prefix(gv, name@, i + 1);
            }
            return i;
        }
        i += 1;
    }
    assert(gv.subrange(0, gs.len() as int) =~= gv);
    i
}

/// A first match in a prefix is the first match overall.
pub proof fn lemma_group_index_prefix(gs: Seq<ProcV>, name: Seq<char>, k: int)
    requires
        0 <= k <= gs.len(),
        group_index(gs.subrange(0, k), name) >= 0,
    ensures
        group_index(gs, name) == group_index(gs.subrange(0, k), name),
    decreases gs.len() - k,
{
    if k < gs.len() {
        assert(gs.subrange(0, k + 1).drop_last() =~= gs.subrange(0, k));
        lemma_group_index_prefix(gs, name, k + 1);
    } else {
        assert(gs.subrange(0, k) =~= gs);
    }
}

pub proof fn lemma_group_index_bound(gs: Seq<ProcV>, name: Seq<char>)
    ensures
        -1 <= group_index(gs, name) < gs.len(),
        group_index(gs, name) >= 0 ==> gs[group_index(gs, name)].name == name,
    decreases gs.len(),
{
    if gs.len() > 0 {
        lemma_group_index_bound(gs.drop_last(), name);
    }
}

/// The pairs gathered by process (unsorted).
fn gather_items(items: Vec<(String, ConnItem)>) -> (r: Vec<ConnProcess>)
    ensures
        procs_view(r@) == gather(pairs_view(items@)),
        forall|j: int|
            0 <= j < r.len() ==> (#[trigger] r@[j]).up <= r@[j].count * 0xffff_ffff_ffff_ffffint
                && r@[j].down <= r@[j].count * 0xffff_ffff_ffff_ffffint,
{
    let ghost iv = pairs_view(items@);
    let mut out: Vec<ConnProcess> = Vec::new();
    let mut i: usize = 0;
    let n = items.len();
    assert(iv.subrange(0, 0) =~= Seq::<(Seq<char>, ConnItem)>::empty());
    assert(procs_view(out@) =~= Seq::<ProcV>::empty());
    while i < n
        invariant
            n == items.len(),
            i <= n,
            iv == pairs_view(items@),
            procs_view(out@) == gather(iv.subrange(0, i as int)),
            forall|j: int| 0 <= j < out.len() ==> (#[trigger] out@[j]).count <= i,
            forall|j: int|
                0 <= j < out.len() ==> (#[trigger] out@[j]).up <= out@[j].count
                    * 0xffff_ffff_ffff_ffffint && out@[j].down <= out@[j].count
                    * 0xffff_ffff_ffff_ffffint,
        decreases n - i,
    {
        let name = &items[i].0;
        let item = items[i].1.duplicate();
        let ghost gv = procs_view(out@);
        proof {
            let pre = iv.subrange(0, i + 1);
            assert(pre.drop_last() =~= iv.subrange(0, i as int));
            assert(pre.last() == (name@, item));
        }
        let k = find_group(&out, name.as_str());
        proof {
            lemma_group_index_bound(gv, name@);
        }
        if k == out.len() {
            let g = ConnProcess {
                name: name.clone(),
                count: 1,
                up: item.up as u128,
                down: item.down as u128,
                process_path: item.process_path.clone(),
                conns: vec![item],
            };
            proof {
                assert(g@.conns =~= seq![item]);
            }
            out.push(g);
            assert(procs_view(out@) =~= gv.push(g@));
        } else {
            let ghost before = out@;
            let g = out.remove(k);
            let path = if g.process_path.as_str().is_empty() && !item.process_path.as_str().is_empty() {
                item.process_path.clone()
            } else {
                g.process_path
            };
            let mut conns = g.conns;
            let ghost old_conns = conns@;
            let up = g.up + item.up as u128;
            let down = g.down + item.down as u128;
            conns.push(item);
            let g2 = ConnProcess { name: g.name, count: g.count + 1, up, down, process_path: path, conns };
            out.insert(k, g2);
            proof {
                assert(out@ =~= before.update(k as int, g2));
                assert(procs_view(out@) =~= gv.update(k as int, g2@));
                assert(g2@.conns =~= old_conns.push(item));
            }
        }
        i += 1;
    }
    assert(iv.subrange(0, n as int) =~= iv);
    out
}

/// The position where a group with traffic `up + down` goes in `out`.
fn proc_insert_pos(out: &Vec<ConnProcess>, up: u128, down: u128) -> (p: usize)
    ensures
        p as int == insert_pos(procs_view(out@), up + down, proc_key()),
{
    let ghost ov = procs_view(out@);
    let mut p: usize = 0;
    while p < out.len() && sum_ge(out[p].up, out[p].down, up, down)
        invariant
            p <= out.len(),
            ov == procs_view(out@),
            forall|j: int| 0 <= j < p ==> (proc_key())(#[trigger] ov[j]) >= up + down,
        decreases out.len() - p,
    {
        p += 1;
    }
    proof {
        lemma_insert_pos(ov, up + down, proc_key(), p as int);
    }
    p
}

/// Groups with their connections sorted, then ordered by descending
/// traffic, stably.
fn sort_groups(v: Vec<ConnProcess>) -> (r: Vec<ConnProcess>)
    ensures
        procs_view(r@) == sort_desc(
            procs_view(v@).map_values(|g: ProcV| with_sorted_conns(g)),
            proc_key(),
        ),
{
    let ghost orig = procs_view(v@).map_values(|g: ProcV| with_sorted_conns(g));
    let mut out: Vec<ConnProcess> = Vec::new();
    let mut rest = v;
    let ghost rv = rest@;
    let mut i: usize = 0;
    let n = rest.len();
    assert(orig.subrange(0, 0) =~= Seq::<ProcV>::empty());
    assert(procs_view(out@) =~= Seq::<ProcV>::empty());
    while rest.len() > 0
        invariant
            n == orig.len(),
            n == rv.len(),
            i + rest.len() == n,
            rest@ == rv.subrange(i as int, n as int),
            orig == procs_view(rv).map_values(|g: ProcV| with_sorted_conns(g)),
            procs_view(out@) == sort_desc(orig.subrange(0, i as int), proc_key()),
        decreases rest.len(),
    {
        let ghost r0 = rest@;
        let g = rest.remove(0);
        assert(g == rv[i as int]);
        assert(rest@ =~= rv.subrange(i + 1, n as int));
        let g2 = ConnProcess {
            name: g.name,
            count: g.count,
            up: g.up,
            down: g.down,
            process_path: g.process_path,
            conns: sort_items(g.conns),
        };
        assert(g2@ == orig[i as int]);
        let p = proc_insert_pos(&out, g2.up, g2.down);
        let ghost ov = procs_view(out@);
        proof {
            let pre = orig.subrange(0, i + 1);
            assert(pre.drop_last() =~= orig.subrange(0, i as int));
            assert(pre.last() == g2@);
            lemma_sort_desc_len(orig.subrange(0, i as int), proc_key());
        }
        out.insert(p, g2);
        assert(procs_view(out@) =~= ov.insert(p as int, g2@));
        i += 1;
    }
    assert(orig.subrange(0, n as int) =~= orig);
    out
}

/// `(process, connection)` pairs grouped by process; groups and the
/// connections in each ordered by descending traffic (see [`group_v`]).
pub fn group_items(items: Vec<(String, ConnItem)>) -> (r: Vec<ConnProcess>)
    ensures
        procs_view(r@) == group_v(pairs_view(items@)),
{
    let g = gather_items(items);
    sort_groups(g)
}

/// Per-second traffic samples kept for the graph.
pub const MAX_HISTORY: usize = 60;

/// Recently closed connections remembered.
pub const MAX_CLOSED: usize = 300;

/// `s` with `x` appended, the oldest entry dropped when `cap` are held.
pub open spec fn push_capped<T>(s: Seq<T>, x: T, cap: nat) -> Seq<T> {
    if s.len() >= cap {
        s.drop_first().push(x)
    } else {
        s.push(x)
    }
}

pub open spec fn push_all_capped<T>(s: Seq<T>, xs: Seq<T>, cap: nat) -> Seq<T>
    decreases xs.len(),
{
    if xs.len() == 0 {
        s
    } else {
        push_capped(push_all_capped(s, xs.drop_last(), cap), xs.last(), cap)
    }
}

/// A parsed connection: its id, its process and the connection.
pub type Snap = (Seq<char>, Seq<char>, ConnItem);

pub open spec fn triples_view(v: Seq<(String, String, ConnItem)>) -> Seq<Snap> {
    v.map_values(|t: (String, String, ConnItem)| (t.0@, t.1@, t.2))
}

pub open spec fn snap_ids(v: Seq<Snap>) -> Seq<Seq<char>> {
    v.map_values(|t: Snap| t.0)
}

pub open spec fn snap_pairs(v: Seq<Snap>) -> Seq<(Seq<char>, ConnItem)> {
    v.map_values(|t: Snap| (t.1, t.2))
}

/// The tracked connections whose id the new snapshot no longer has, as
/// `(process, connection)`, in tracking order.
pub open spec fn gone(active: Seq<Snap>, ids: Seq<Seq<char>>) -> Seq<(Seq<char>, ConnItem)>
    decreases active.len(),
{
    if active.len() == 0 {
        Seq::empty()
    } else {
        let r = gone(active.drop_last(), ids);
        if ids.contains(active.last().0) {
            r
        } else {
            r.push((active.last().1, active.last().2))
        }
    }
}

/// Law: the connections a snapshot closes are exactly the tracked ones whose
/// id the snapshot no longer has, as `(process, connection)`, in tracking
/// order.
pub proof fn law_gone_are_the_vanished(active: Seq<Snap>, ids: Seq<Seq<char>>)
    ensures
        gone(active, ids) == active.filter(|t: Snap| !ids.contains(t.0)).map_values(|t: Snap| (t.1, t.2)),
    decreases active.len(),
{
    reveal(Seq::filter);
    if active.len() > 0 {
        law_gone_are_the_vanished(active.drop_last(), ids);
        let f = active.drop_last().filter(|t: Snap| !ids.contains(t.0));
        let x = active.last();
        assert(f.push(x).map_values(|t: Snap| (t.1, t.2)) =~= f.map_values(|t: Snap| (t.1, t.2)).push((x.1, x.2)));
    }
}

/// Law: a list kept under a cap, fed entries one at a time, holds the most
/// recent `cap` of everything it was given, oldest first.
pub proof fn law_capped_keeps_latest<T>(s: Seq<T>, xs: Seq<T>, cap: nat)
    requires
        s.len() <= cap,
        cap > 0,
    ensures
        push_all_capped(s, xs, cap) == (s + xs).subrange(
            if (s + xs).len() > cap {
                (s + xs).len() - cap
            } else {
                0
            },
            (s + xs).len() as int,
        ),
    decreases xs.len(),
{
    if xs.len() > 0 {
        let xs1 = xs.drop_last();
        law_capped_keeps_latest(s, xs1, cap);
        let all = s + xs;
        let all1 = s + xs1;
        assert(all1 =~= all.drop_last());
        let n = all.len();
        let k1: int = if n - 1 > cap { n - 1 - cap } else { 0 };
        let r1 = push_all_capped(s, xs1, cap);
        assert(r1 == all1.subrange(k1, n - 1));
        if r1.len() >= cap {
            assert(r1.drop_first().push(xs.last()) =~= all.subrange(k1 + 1, n as int));
        } else {
            assert(r1.push(xs.last()) =~= all.subrange(k1, n as int));
        }
    }
}

/// The first tracked connection with id `id`, or -1.
pub open spec fn snap_index(v: Seq<Snap>, id: Seq<char>) -> int
    decreases v.len(),
{
    if v.len() == 0 {
        -1
    } else {
        let r = snap_index(v.drop_last(), id);
        if r >= 0 {
            r
        } else if v.last().0 == id {
            v.len() - 1
        } else {
            -1
        }
    }
}

/// The connections tracked by id after a snapshot: one per id, the last
/// snapshot entry with that id winning.
pub open spec fn track(parsed: Seq<Snap>) -> Seq<Snap>
    decreases parsed.len(),
{
    if parsed.len() == 0 {
        Seq::empty()
    } else {
        let r = track(parsed.drop_last());
        let i = snap_index(r, parsed.last().0);
        if i >= 0 {
            r.update(i, parsed.last())
        } else {
            r.push(parsed.last())
        }
    }
}

/// Connection statistics folded from the core's `/connections` snapshots.
pub struct ConnTracker {
    pub up_speed: u64,
    pub down_speed: u64,
    pub total_up: u64,
    pub total_down: u64,
    pub conn_count: usize,
    /// Per-second `(up, down)` speeds, oldest first.
    pub history: Vec<(u64, u64)>,
    pub last_totals: Option<(u64, u64)>,
    pub connections: Vec<ConnProcess>,
    pub closed_connections: Vec<ConnProcess>,
    /// The last snapshot's connections by id: `(id, process, connection)`.
    pub active: Vec<(String, String, ConnItem)>,
    /// Recently closed `(process, connection)` pairs, oldest first.
    pub closed_items: Vec<(String, ConnItem)>,
}

/// `new` is `old` after a snapshot with `count` connections, parsed as
/// `parsed`, and the totals `up` / `down`.
pub open spec fn snapshot_applied(
    old: ConnTracker,
    new: ConnTracker,
    parsed: Seq<Snap>,
    count: usize,
    up: u64,
    down: u64,
) -> bool {
    let closed = push_all_capped(
        pairs_view(old.closed_items@),
        gone(triples_view(old.active@), snap_ids(parsed)),
        MAX_CLOSED as nat,
    );
    let (us, ds) = match old.last_totals {
        Some((lu, ld)) => (if up >= lu { up - lu } else { 0 }, if down >= ld { down - ld } else { 0 }),
        None => (0int, 0int),
    };
    &&& new.conn_count == count
    &&& procs_view(new.connections@) == group_v(snap_pairs(parsed))
    &&& pairs_view(new.closed_items@) == closed
    &&& procs_view(new.closed_connections@) == group_v(closed.reverse())
    &&& triples_view(new.active@) == track(parsed)
    &&& new.up_speed == us
    &&& new.down_speed == ds
    &&& new.last_totals == Some((up, down))
    &&& new.total_up == up
    &&& new.total_down == down
    &&& new.history@ == push_capped(old.history@, (new.up_speed, new.down_speed), MAX_HISTORY as nat)
}

/// Connection entries of a snapshot parsed one by one.
pub open spec fn parsed_from(parsed: Seq<Snap>, conns: Seq<JsonV>) -> bool {
    &&& parsed.len() == conns.len()
    &&& forall|j: int|
        0 <= j < conns.len() ==> {
            &&& (#[trigger] parsed[j]).0 == field_text(conns[j], "id"@)
            &&& parsed[j].1 == conn_process_name(conns[j])
            &&& conn_matches(parsed[j].2, conns[j])
        }
}

pub open spec fn snapshot_conns(data: JsonV) -> Seq<JsonV> {
    match as_array(get(data, "connections"@)) {
        Some(a) => a,
        None => Seq::empty(),
    }
}

impl ConnTracker {
    /// Nothing seen yet.
    pub fn new() -> (r: ConnTracker)
        ensures
            r.wf(),
            r.up_speed == 0 && r.down_speed == 0 && r.total_up == 0 && r.total_down == 0,
            r.conn_count == 0,
            r.last_totals is None,
            r.history@.len() == 0 && r.connections@.len() == 0 && r.closed_connections@.len() == 0,
            r.active@.len() == 0 && r.closed_items@.len() == 0,
    {
        ConnTracker {
            up_speed: 0,
            down_speed: 0,
            total_up: 0,
            total_down: 0,
            conn_count: 0,
            history: Vec::new(),
            last_totals: None,
            connections: Vec::new(),
            closed_connections: Vec::new(),
            active: Vec::new(),
            closed_items: Vec::new(),
        }
    }

    /// The graph and the closed list stay within their caps.
    pub open spec fn wf(&self) -> bool {
        &&& self.history@.len() <= MAX_HISTORY
        &&& self.closed_items@.len() <= MAX_CLOSED
    }

    /// Folds one parsed snapshot into the statistics.
    pub fn apply_snapshot(&mut self, parsed: Vec<(String, String, ConnItem)>, count: usize, up: u64, down: u64)
        requires
            old(self).wf(),
        ensures
            final(self).wf(),
            snapshot_applied(*old(self), *final(self), triples_view(parsed@), count, up, down),
    {
        let ghost pv = triples_view(parsed@);
        let ghost old_self = *self;
        // ids of the new snapshot
        let mut ids: Vec<String> = Vec::new();
        let mut i: usize = 0;
        assert(ids@.map_values(|p: String| p@) =~= snap_ids(pv).subrange(0, 0));
        while i < parsed.len()
            invariant
                i <= parsed.len(),
                pv == triples_view(parsed@),
                ids@.map_values(|p: String| p@) == snap_ids(pv).subrange(0, i as int),
            decreases parsed.len() - i,
        {
            let ghost before = ids@;
            let x = parsed[i].0.clone();
            assert(pv[i as int].0 == x@);
            ids.push(x);
            assert(ids@.map_values(|p: String| p@) =~= before.map_values(|p: String| p@).push(x@));
            assert(snap_ids(pv).subrange(0, i + 1) =~= snap_ids(pv).subrange(0, i as int).push(x@));
            i += 1;
        }
        assert(snap_ids(pv).subrange(0, parsed.len() as int) =~= snap_ids(pv));
        // connections that disappeared
        let ghost av = triples_view(self.active@);
        let ghost idv = snap_ids(pv);
        let mut gone_items: Vec<(String, ConnItem)> = Vec::new();
        let mut j: usize = 0;
        assert(av.subrange(0, 0) =~= Seq::<Snap>::empty());
        assert(pairs_view(gone_items@) =~= Seq::<(Seq<char>, ConnItem)>::empty());
        while j < self.active.len()
            invariant
                j <= self.active.len(),
                *self == old_self,
                av == triples_view(self.active@),
                idv == snap_ids(pv),
                ids@.map_values(|p: String| p@) == idv,
                pairs_view(gone_items@) == gone(av.subrange(0, j as int), idv),
            decreases self.active.len() - j,
        {
            assert(av.subrange(0, j + 1).drop_last() =~= av.subrange(0, j as int));
            if !in_list(&ids, self.active[j].0.as_str()) {
                let x = (self.active[j].1.clone(), self.active[j].2.duplicate());
                let ghost before = gone_items@;
                gone_items.push(x);
                assert(pairs_view(gone_items@) =~= pairs_view(before).push((x.0@, x.1)));
            }
            j += 1;
        }
        assert(av.subrange(0, self.active.len() as int) =~= av);
        // remember them, capped
        let ghost gv = pairs_view(gone_items@);
        let ghost c0 = pairs_view(self.closed_items@);
        let mut k: usize = 0;
        assert(gv.subrange(0, 0) =~= Seq::<(Seq<char>, ConnItem)>::empty());
        while k < gone_items.len()
            invariant
                k <= gone_items.len(),
                gv == pairs_view(gone_items@),
                self.closed_items@.len() <= MAX_CLOSED,
                self.history@ == old_self.history@,
                self.last_totals == old_self.last_totals,
                pairs_view(self.closed_items@) == push_all_capped(c0, gv.subrange(0, k as int), MAX_CLOSED as nat),
            decreases gone_items.len() - k,
        {
            let ghost before = pairs_view(self.closed_items@);
            assert(gv.subrange(0, k + 1).drop_last() =~= gv.subrange(0, k as int));
            let x = (gone_items[k].0.clone(), gone_items[k].1.duplicate());
            if self.closed_items.len() >= MAX_CLOSED {
                self.closed_items.remove(0);
                assert(pairs_view(self.closed_items@) =~= before.drop_first());
            }
            let ghost mid = pairs_view(self.closed_items@);
            self.closed_items.push(x);
            assert(pairs_view(self.closed_items@) =~= mid.push((x.0@, x.1)));
            k += 1;
        }
        assert(gv.subrange(0, gone_items.len() as int) =~= gv);
        // the connections tracked from now on
        let mut active: Vec<(String, String, ConnItem)> = Vec::new();
        let mut m: usize = 0;
        assert(pv.subrange(0, 0) =~= Seq::<Snap>::empty());
        assert(triples_view(active@) =~= Seq::<Snap>::empty());
        while m < parsed.len()
            invariant
                m <= parsed.len(),
                pv == triples_view(parsed@),
                triples_view(active@) == track(pv.subrange(0, m as int)),
            decreases parsed.len() - m,
        {
            assert(pv.subrange(0, m + 1).drop_last() =~= pv.subrange(0, m as int));
            let t = (parsed[m].0.clone(), parsed[m].1.clone(), parsed[m].2.duplicate());
            let p = find_snap(&active, t.0.as_str());
            let ghost before = triples_view(active@);
            proof {
                lemma_snap_index_bound(before, t.0@);
            }
            if p < active.len() {
                active.set(p, t);
                assert(triples_view(active@) =~= before.update(p as int, (t.0@, t.1@, t.2)));
            } else {
                active.push(t);
                assert(triples_view(active@) =~= before.push((t.0@, t.1@, t.2)));
            }
            m += 1;
        }
        assert(pv.subrange(0, parsed.len() as int) =~= pv);
        self.active = active;
        // grouped views
        let mut pairs: Vec<(String, ConnItem)> = Vec::new();
        let mut q: usize = 0;
        assert(pairs_view(pairs@) =~= snap_pairs(pv).subrange(0, 0));
        while q < parsed.len()
            invariant
                q <= parsed.len(),
                pv == triples_view(parsed@),
                pairs_view(pairs@) == snap_pairs(pv).subrange(0, q as int),
            decreases parsed.len() - q,
        {
            let x = (parsed[q].1.clone(), parsed[q].2.duplicate());
            let ghost before = pairs@;
            assert(pv[q as int].1 == x.0@ && pv[q as int].2 == x.1);
            pairs.push(x);
            assert(pairs_view(pairs@) =~= pairs_view(before).push((x.0@, x.1)));
            assert(snap_pairs(pv).subrange(0, q + 1) =~= snap_pairs(pv).subrange(0, q as int).push((x.0@, x.1)));
            q += 1;
        }
        assert(snap_pairs(pv).subrange(0, parsed.len() as int) =~= snap_pairs(pv));
        self.connections = group_items(pairs);
        let mut rev: Vec<(String, ConnItem)> = Vec::new();
        let ghost cv = pairs_view(self.closed_items@);
        let mut r: usize = self.closed_items.len();
        assert(pairs_view(rev@) =~= cv.reverse().subrange(0, 0));
        while r > 0
            invariant
                r <= self.closed_items.len(),
                cv == pairs_view(self.closed_items@),
                pairs_view(rev@) == cv.reverse().subrange(0, cv.len() - r),
            decreases r,
        {
            r -= 1;
            let x = (self.closed_items[r].0.clone(), self.closed_items[r].1.duplicate());
            let ghost before = rev@;
            assert(cv[r as int] == (x.0@, x.1));
            rev.push(x);
            assert(pairs_view(rev@) =~= pairs_view(before).push((x.0@, x.1)));
            assert(cv.reverse().subrange(0, cv.len() - r) =~= cv.reverse().subrange(0, cv.len() - r - 1).push(cv[r as int]));
        }
        assert(cv.reverse().subrange(0, cv.len() as int) =~= cv.reverse());
        self.closed_connections = group_items(rev);
        // speeds and totals
        match self.last_totals {
            Some((lu, ld)) => {
                self.up_speed = up.saturating_sub(lu);
                self.down_speed = down.saturating_sub(ld);
            },
            None => {
                self.up_speed = 0;
                self.down_speed = 0;
            },
        }
        self.last_totals = Some((up, down));
        self.total_up = up;
        self.total_down = down;
        self.conn_count = count;
        let ghost h0 = self.history@;
        if self.history.len() >= MAX_HISTORY {
            self.history.remove(0);
        }
        self.history.push((self.up_speed, self.down_speed));
        assert(self.history@ =~= push_capped(h0, (self.up_speed, self.down_speed), MAX_HISTORY as nat));
    }

    /// Folds one `/connections` snapshot into the statistics.
    pub fn apply_connections(&mut self, data: &Json)
        requires
            old(self).wf(),
        ensures
            final(self).wf(),
            exists|parsed: Seq<Snap>|
                parsed_from(parsed, snapshot_conns(data@)) && snapshot_applied(
                    *old(self),
                    *final(self),
                    parsed,
                    snapshot_conns(data@).len() as usize,
                    field_u64(data@, "uploadTotal"@) as u64,
                    field_u64(data@, "downloadTotal"@) as u64,
                ),
    {
        let down = u64_field(data, "downloadTotal");
        let up = u64_field(data, "uploadTotal");
        let mut parsed: Vec<(String, String, ConnItem)> = Vec::new();
        let mut count: usize = 0;
        let ghost cs = snapshot_conns(data@);
        match data.get("connections") {
            Some(v) => match v.as_array() {
                Some(arr) => {
                    count = arr.len();
                    proof {
                        lemma_view_list_len(arr@);
                    }
                    let mut i: usize = 0;
                    while i < arr.len()
                        invariant
                            i <= arr.len(),
                            cs == view_list(arr@),
                            cs.len() == arr.len(),
                            parsed_from(triples_view(parsed@), cs.subrange(0, i as int)),
                        decreases arr.len() - i,
                    {
                        proof {
                            lemma_view_list_index(arr@, i as int);
                        }
                        let t = parse_conn(&arr[i]);
                        let ghost prev = triples_view(parsed@);
                        let ghost tt = (t.0@, t.1@, t.2);
                        parsed.push(t);
                        proof {
                            let tv = triples_view(parsed@);
                            assert(tv =~= prev.push(tt));
                            let sub = cs.subrange(0, i + 1);
                            assert forall|j: int| 0 <= j < sub.len() implies {
                                &&& (#[trigger] tv[j]).0 == field_text(sub[j], "id"@)
                                &&& tv[j].1 == conn_process_name(sub[j])
                                &&& conn_matches(tv[j].2, sub[j])
                            } by {
                                if j < i {
                                    assert(sub[j] == cs.subrange(0, i as int)[j]);
                                    assert(tv[j] == prev[j]);
                                } else {
                                    assert(sub[j] == cs[i as int]);
                                }
                            }
                        }
                        i += 1;
                    }
                    assert(cs.subrange(0, arr.len() as int) =~= cs);
                },
                None => {},
            },
            None => {},
        }
        proof {
            lemma_view_list_len(Seq::<Json>::empty());
        }
        let ghost pv = triples_view(parsed@);
        self.apply_snapshot(parsed, count, up, down);
        assert(parsed_from(pv, cs));
    }
}

/// The position of the first tracked connection with id `id`, or `v.len()`.
fn find_snap(v: &Vec<(String, String, ConnItem)>, id: &str) -> (r: usize)
    ensures
        r <= v.len(),
        r < v.len() ==> snap_index(triples_view(v@), id@) == r as int,
        r == v.len() ==> snap_index(triples_view(v@), id@) == -1,
{
    let ghost tv = triples_view(v@);
    let mut i: usize = 0;
    while i < v.len()
        invariant
            i <= v.len(),
            tv == triples_view(v@),
            snap_index(tv.subrange(0, i as int), id@) == -1,
        decreases v.len() - i,
    {
        assert(tv.subrange(0, i + 1).drop_last() =~= tv.subrange(0, i as int));
        if str_eq(v[i].0.as_str(), id) {
            proof {
                lemma_snap_index_prefix(tv, id@, i + 1);
            }
            return i;
        }
        i += 1;
    }
    assert(tv.subrange(0, v.len() as int) =~= tv);
    i
}

pub proof fn lemma_snap_index_prefix(v: Seq<Snap>, id: Seq<char>, k: int)
    requires
        0 <= k <= v.len(),
        snap_index(v.subrange(0, k), id) >= 0,
    ensures
        snap_index(v, id) == snap_index(v.subrange(0, k), id),
    decreases v.len() - k,
{
    if k < v.len() {
        assert(v.subrange(0, k + 1).drop_last() =~= v.subrange(0, k));
        lemma_snap_index_prefix(v, id, k + 1);
    } else {
        assert(v.subrange(0, k) =~= v);
    }
}

pub proof fn lemma_snap_index_bound(v: Seq<Snap>, id: Seq<char>)
    ensures
        -1 <= snap_index(v, id) < v.len(),
    decreases v.len(),
{
    if v.len() > 0 {
        lemma_snap_index_bound(v.drop_last(), id);
    }
}

/// Where `snap_index` points: an entry with that id, or nowhere when no
/// entry has it.
proof fn lemma_snap_index_spot(v: Seq<Snap>, id: Seq<char>)
    ensures
        snap_index(v, id) >= 0 ==> v[snap_index(v, id)].0 == id,
        snap_index(v, id) < 0 ==> forall|j: int| 0 <= j < v.len() ==> (#[trigger] v[j]).0 != id,
    decreases v.len(),
{
    if v.len() > 0 {
        lemma_snap_index_spot(v.drop_last(), id);
        lemma_snap_index_bound(v.drop_last(), id);
        if snap_index(v.drop_last(), id) >= 0 {
            assert(v[snap_index(v, id)] == v.drop_last()[snap_index(v, id)]);
        } else {
            assert forall|j: int| 0 <= j < v.len() - 1 implies (#[trigger] v[j]).0 != id by {
                assert(v[j] == v.drop_last()[j]);
            }
        }
    }
}

/// Law: after a snapshot each id is tracked once, by the last snapshot entry
/// that carries it, and nothing else is tracked.
pub proof fn law_tracked_by_last_entry(parsed: Seq<Snap>)
    ensures
        forall|a: int, b: int| 0 <= a < b < track(parsed).len() ==> (#[trigger] track(parsed)[a]).0 != (
        #[trigger] track(parsed)[b]).0,
        forall|j: int|
            0 <= j < parsed.len() && (forall|l: int| j < l < parsed.len() ==> (#[trigger] parsed[l]).0 != parsed[j].0)
                ==> track(parsed).contains(#[trigger] parsed[j]),
        forall|a: int|
            0 <= a < track(parsed).len() ==> exists|j: int|
                0 <= j < parsed.len() && parsed[j] == #[trigger] track(parsed)[a] && forall|l: int|
                    j < l < parsed.len() ==> (#[trigger] parsed[l]).0 != parsed[j].0,
    decreases parsed.len(),
{
    if parsed.len() > 0 {
        let p1 = parsed.drop_last();
        law_tracked_by_last_entry(p1);
        let r = track(p1);
        let x = parsed.last();
        let n = parsed.len() - 1;
        assert(parsed[n] == x);
        let i = snap_index(r, x.0);
        lemma_snap_index_bound(r, x.0);
        lemma_snap_index_spot(r, x.0);
        let t = track(parsed);
        assert forall|a: int, b: int| 0 <= a < b < t.len() implies (#[trigger] t[a]).0 != (#[trigger] t[b]).0 by {
            if i >= 0 {
                assert(t[a].0 == r[a].0 && t[b].0 == r[b].0);
            } else {
                if b == r.len() {
                    assert(t[a] == r[a]);
                } else {
                    assert(t[a] == r[a] && t[b] == r[b]);
                }
            }
        }
        assert forall|j: int|
            0 <= j < parsed.len() && (forall|l: int| j < l < parsed.len() ==> (#[trigger] parsed[l]).0 != parsed[j].0)
            implies t.contains(#[trigger] parsed[j]) by {
            if j == n {
                if i >= 0 {
                    assert(t[i] == x);
                } else {
                    assert(t[r.len() as int] == x);
                }
            } else {
                assert(parsed[j] == p1[j]);
                assert forall|l: int| j < l < p1.len() implies (#[trigger] p1[l]).0 != p1[j].0 by {
                    assert(p1[l] == parsed[l]);
                }
                assert(r.contains(p1[j]));
                let a = choose|a: int| 0 <= a < r.len() && r[a] == p1[j];
                assert(x.0 != parsed[j].0);
                if i >= 0 {
                    assert(a != i);
                    assert(t[a] == r[a]);
                } else {
                    assert(t[a] == r[a]);
                }
            }
        }
        assert forall|a: int| 0 <= a < t.len() implies exists|j: int|
            0 <= j < parsed.len() && parsed[j] == #[trigger] t[a] && forall|l: int|
                j < l < parsed.len() ==> (#[trigger] parsed[l]).0 != parsed[j].0 by {
            if (i >= 0 && a == i) || (i < 0 && a == r.len()) {
                assert(t[a] == parsed[n]);
            } else {
                assert(t[a] == r[a]);
                let j = choose|j: int|
                    0 <= j < p1.len() && p1[j] == #[trigger] r[a] && forall|l: int|
                        j < l < p1.len() ==> (#[trigger] p1[l]).0 != p1[j].0;
                assert(parsed[j] == p1[j]);
                if i >= 0 {
                    assert(r[a].0 != r[i].0);
                } else {
                    assert(r[a].0 != x.0);
                }
                assert forall|l: int| j < l < parsed.len() implies (#[trigger] parsed[l]).0 != parsed[j].0 by {
                    if l < n {
                        assert(parsed[l] == p1[l]);
                    }
                }
            }
        }
    }
}

/// Whether keys never grow along `s`.
pub open spec fn sorted_desc<T>(s: Seq<T>, key: spec_fn(T) -> int) -> bool {
    forall|i: int, j: int| 0 <= i < j < s.len() ==> key(#[trigger] s[i]) >= key(#[trigger] s[j])
}

pub proof fn lemma_insert_pos_props<T>(s: Seq<T>, k: int, key: spec_fn(T) -> int)
    ensures
        insert_pos(s, k, key) <= s.len(),
        forall|i: int| 0 <= i < insert_pos(s, k, key) ==> key(#[trigger] s[i]) >= k,
        insert_pos(s, k, key) < s.len() ==> key(s[insert_pos(s, k, key) as int]) < k,
    decreases s.len(),
{
    if s.len() > 0 && key(s[0]) >= k {
        let t = s.drop_first();
        lemma_insert_pos_props(t, k, key);
        assert forall|i: int| 0 <= i < insert_pos(s, k, key) implies key(#[trigger] s[i]) >= k by {
            if i > 0 {
                assert(s[i] == t[i - 1]);
            }
        }
        if insert_pos(s, k, key) < s.len() {
            assert(s[insert_pos(s, k, key) as int] == t[insert_pos(t, k, key) as int]);
        }
    }
}

/// A stable sort by descending key leaves the keys in descending order and
/// holds only elements of its input.
pub proof fn lemma_sort_desc_sorted<T>(s: Seq<T>, key: spec_fn(T) -> int)
    ensures
        sorted_desc(sort_desc(s, key), key),
        forall|j: int| 0 <= j < sort_desc(s, key).len() ==> s.contains(#[trigger] sort_desc(s, key)[j]),
    decreases s.len(),
{
    lemma_sort_desc_len(s, key);
    if s.len() > 0 {
        let r = sort_desc(s.drop_last(), key);
        lemma_sort_desc_sorted(s.drop_last(), key);
        lemma_sort_desc_len(s.drop_last(), key);
        let x = s.last();
        let k = key(x);
        let p = insert_pos(r, k, key) as int;
        lemma_insert_pos_props(r, k, key);
        let t = r.insert(p, x);
        assert(t == sort_desc(s, key));
        assert forall|i: int, j: int| 0 <= i < j < t.len() implies key(#[trigger] t[i]) >= key(#[trigger] t[j]) by {
            if j < p {
                assert(t[i] == r[i] && t[j] == r[j]);
            } else if j == p {
                assert(t[i] == r[i]);
            } else if i == p {
                assert(t[j] == r[j - 1]);
                assert(key(r[p]) < k);
                if j - 1 > p {
                    assert(key(r[p]) >= key(r[j - 1]));
                }
            } else if i < p {
                assert(t[i] == r[i] && t[j] == r[j - 1]);
            } else {
                assert(t[i] == r[i - 1] && t[j] == r[j - 1]);
            }
        }
        assert forall|j: int| 0 <= j < t.len() implies s.contains(#[trigger] t[j]) by {
            if j == p {
                assert(s[s.len() - 1] == x);
            } else {
                let y = if j < p { r[j] } else { r[j - 1] };
                assert(t[j] == y);
                assert(s.drop_last().contains(y));
                let m = choose|m: int| 0 <= m < s.drop_last().len() && s.drop_last()[m] == y;
                assert(s[m] == y);
            }
        }
    }
}

/// The Connections page's order: processes by descending traffic, and the
/// connections of each process by descending traffic too.
pub proof fn law_groups_ordered(items: Seq<(Seq<char>, ConnItem)>)
    ensures
        sorted_desc(group_v(items), proc_key()),
        forall|j: int| 0 <= j < group_v(items).len() ==> sorted_desc((#[trigger] group_v(items)[j]).conns, item_key()),
{
    let gs = gather(items).map_values(|g: ProcV| with_sorted_conns(g));
    lemma_sort_desc_sorted(gs, proc_key());
    assert forall|j: int| 0 <= j < group_v(items).len() implies sorted_desc((#[trigger] group_v(items)[j]).conns, item_key()) by {
        let g = group_v(items)[j];
        assert(gs.contains(g));
        let m = choose|m: int| 0 <= m < gs.len() && gs[m] == g;
        let g0 = gather(items)[m];
        assert(g == with_sorted_conns(g0));
        lemma_sort_desc_sorted(g0.conns, item_key());
    }
}

/// One update the streaming loops deliver.
pub enum StreamEvent {
    /// A `/connections` snapshot.
    Connections(Json),
    /// One log entry `{type, payload}`.
    Log(Json),
}

/// Folds a streamed event into the statistics or the log (a log line read
/// at `time`).
pub fn apply_stream_event(tracker: &mut ConnTracker, logs: &mut crate::state::LogBuffer, ev: StreamEvent, time: String)
    requires
        old(tracker).wf(),
        old(logs).logs@.len() <= crate::state::MAX_LOGS,
    ensures
        final(tracker).wf(),
        final(logs).logs@.len() <= crate::state::MAX_LOGS,
        match ev {
            StreamEvent::Connections(data) => *final(logs) == *old(logs) && exists|parsed: Seq<Snap>|
                parsed_from(parsed, snapshot_conns(data@)) && snapshot_applied(
                    *old(tracker),
                    *final(tracker),
                    parsed,
                    snapshot_conns(data@).len() as usize,
                    field_u64(data@, "uploadTotal"@) as u64,
                    field_u64(data@, "downloadTotal"@) as u64,
                ),
            StreamEvent::Log(entry) => *final(tracker) == *old(tracker) && (field_text(entry@, "payload"@).len()
                == 0 ==> *final(logs) == *old(logs)) && (field_text(entry@, "payload"@).len() > 0 ==> {
                &&& crate::state::lines_view(final(logs).logs@) == crate::state::push_log_v(
                    crate::state::lines_view(old(logs).logs@),
                    (time@, crate::state::text_or(crate::json::as_str(get(entry@, "type"@)), "info"@), field_text(entry@, "payload"@)),
                )
                &&& final(logs).log_seq == (if old(logs).log_seq == usize::MAX {
                    0
                } else {
                    old(logs).log_seq + 1
                })
            }),
        },
{
    match ev {
        StreamEvent::Connections(data) => tracker.apply_connections(&data),
        StreamEvent::Log(entry) => logs.push_log(&entry, time),
    }
}

/// The sum of `f` over `s`.
pub open spec fn sum_of<T>(s: Seq<T>, f: spec_fn(T) -> int) -> int
    decreases s.len(),
{
    if s.len() == 0 {
        0
    } else {
        sum_of(s.drop_last(), f) + f(s.last())
    }
}

pub proof fn lemma_sum_update<T>(s: Seq<T>, i: int, x: T, f: spec_fn(T) -> int)
    requires
        0 <= i < s.len(),
    ensures
        sum_of(s.update(i, x), f) == sum_of(s, f) - f(s[i]) + f(x),
    decreases s.len(),
{
    let t = s.update(i, x);
    if i == s.len() - 1 {
        assert(t.drop_last() =~= s.drop_last());
    } else {
        assert(t.drop_last() =~= s.drop_last().update(i, x));
        lemma_sum_update(s.drop_last(), i, x, f);
    }
}

pub proof fn lemma_sum_insert<T>(s: Seq<T>, i: int, x: T, f: spec_fn(T) -> int)
    requires
        0 <= i <= s.len(),
    ensures
        sum_of(s.insert(i, x), f) == sum_of(s, f) + f(x),
    decreases s.len(),
{
    let t = s.insert(i, x);
    if i == s.len() {
        assert(t =~= s.push(x));
        assert(t.drop_last() =~= s);
    } else {
        assert(t.drop_last() =~= s.drop_last().insert(i, x));
        lemma_sum_insert(s.drop_last(), i, x, f);
        assert(t.last() == s.last());
    }
}

pub proof fn lemma_sum_sort_desc<T>(s: Seq<T>, key: spec_fn(T) -> int, f: spec_fn(T) -> int)
    ensures
        sum_of(sort_desc(s, key), f) == sum_of(s, f),
    decreases s.len(),
{
    if s.len() > 0 {
        lemma_sum_sort_desc(s.drop_last(), key, f);
        let r = sort_desc(s.drop_last(), key);
        lemma_insert_pos_props(r, key(s.last()), key);
        lemma_sum_insert(r, insert_pos(r, key(s.last()), key) as int, s.last(), f);
    }
}

pub proof fn lemma_sum_map_same<A>(s: Seq<A>, g: spec_fn(A) -> A, f: spec_fn(A) -> int)
    requires
        forall|x: A| #[trigger] f(g(x)) == f(x),
    ensures
        sum_of(s.map_values(g), f) == sum_of(s, f),
    decreases s.len(),
{
    if s.len() > 0 {
        assert(s.map_values(g).drop_last() =~= s.drop_last().map_values(g));
        lemma_sum_map_same(s.drop_last(), g, f);
        assert(s.map_values(g).last() == g(s.last()));
    }
}

pub open spec fn proc_count() -> spec_fn(ProcV) -> int {
    |g: ProcV| g.count
}

pub open spec fn proc_up() -> spec_fn(ProcV) -> int {
    |g: ProcV| g.up
}

pub open spec fn proc_down() -> spec_fn(ProcV) -> int {
    |g: ProcV| g.down
}

pub open spec fn pair_up() -> spec_fn((Seq<char>, ConnItem)) -> int {
    |x: (Seq<char>, ConnItem)| x.1.up as int
}

pub open spec fn pair_down() -> spec_fn((Seq<char>, ConnItem)) -> int {
    |x: (Seq<char>, ConnItem)| x.1.down as int
}

pub proof fn lemma_gather_sums(items: Seq<(Seq<char>, ConnItem)>)
    ensures
        sum_of(gather(items), proc_count()) == items.len(),
        sum_of(gather(items), proc_up()) == sum_of(items, pair_up()),
        sum_of(gather(items), proc_down()) == sum_of(items, pair_down()),
        forall|j: int| 0 <= j < gather(items).len() ==> (#[trigger] gather(items)[j]).count == gather(items)[j].conns.len()
            && gather(items)[j].count > 0,
    decreases items.len(),
{
    if items.len() > 0 {
        let prev = items.drop_last();
        lemma_gather_sums(prev);
        let gs = gather(prev);
        let (name, item) = items.last();
        lemma_group_index_bound(gs, name);
        let i = group_index(gs, name);
        if i >= 0 {
            let g = gs[i];
            let ng = ProcV {
                name: g.name,
                count: g.count + 1,
                up: g.up + item.up,
                down: g.down + item.down,
                path: if g.path.len() == 0 && item.process_path@.len() > 0 {
                    item.process_path@
                } else {
                    g.path
                },
                conns: g.conns.push(item),
            };
            assert(gather(items) == gs.update(i, ng));
            lemma_sum_update(gs, i, ng, proc_count());
            lemma_sum_update(gs, i, ng, proc_up());
            lemma_sum_update(gs, i, ng, proc_down());
        } else {
            let ng = ProcV {
                name,
                count: 1,
                up: item.up as int,
                down: item.down as int,
                path: item.process_path@,
                conns: seq![item],
            };
            assert(gather(items) == gs.push(ng));
            assert(gs.push(ng).drop_last() =~= gs);
        }
    }
}

/// Grouping connections by process loses and invents none: the groups'
/// counts add up to the number of connections, their traffic to the
/// connections' traffic, and each group lists exactly its count of
/// connections.
pub proof fn law_groups_account_for_all(items: Seq<(Seq<char>, ConnItem)>)
    ensures
        sum_of(group_v(items), proc_count()) == items.len(),
        sum_of(group_v(items), proc_up()) == sum_of(items, pair_up()),
        sum_of(group_v(items), proc_down()) == sum_of(items, pair_down()),
        forall|j: int| 0 <= j < group_v(items).len() ==> (#[trigger] group_v(items)[j]).count
            == group_v(items)[j].conns.len(),
{
    let gs = gather(items);
    lemma_gather_sums(items);
    let ws = gs.map_values(|g: ProcV| with_sorted_conns(g));
    let w = |g: ProcV| with_sorted_conns(g);
    assert forall|x: ProcV| #[trigger] (proc_count())(w(x)) == (proc_count())(x) by {}
    assert forall|x: ProcV| #[trigger] (proc_up())(w(x)) == (proc_up())(x) by {}
    assert forall|x: ProcV| #[trigger] (proc_down())(w(x)) == (proc_down())(x) by {}
    lemma_sum_map_same(gs, w, proc_count());
    lemma_sum_map_same(gs, w, proc_up());
    lemma_sum_map_same(gs, w, proc_down());
    lemma_sum_sort_desc(ws, proc_key(), proc_count());
    lemma_sum_sort_desc(ws, proc_key(), proc_up());
    lemma_sum_sort_desc(ws, proc_key(), proc_down());
    lemma_sort_desc_sorted(ws, proc_key());
    assert forall|j: int| 0 <= j < group_v(items).len() implies (#[trigger] group_v(items)[j]).count
        == group_v(items)[j].conns.len() by {
        let g = group_v(items)[j];
        assert(ws.contains(g));
        let m = choose|m: int| 0 <= m < ws.len() && ws[m] == g;
        let g0 = gs[m];
        assert(g == with_sorted_conns(g0));
        lemma_sort_desc_len(g0.conns, item_key());
    }
}

} // verus!
