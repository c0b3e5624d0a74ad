use vstd::prelude::*;

use crate::connection::{empty_object, with_member};
use crate::json::{Json, JsonV};
use crate::text::{
    join, join_strings, lines_of, lines_v, own, starts_with, starts_with_str, str_eq, to_chars,
    trim, trim_start, trim_end, is_ws, trim_start_str, trim_str, from_chars, slice_range, split_char,
};

verus! {

/// The section of `mimeapps.list` that names default handlers.
pub open spec fn header() -> Seq<char> {
    "[Default Applications]"@
}

/// The first line (at or after `from`) whose trimmed text is the header, or -1.
pub open spec fn header_index(lines: Seq<Seq<char>>) -> int
    decreases lines.len(),
{
    if lines.len() == 0 {
        -1
    } else {
        let r = header_index(lines.drop_last());
        if r >= 0 {
            r
        } else if trim(lines.last()) == header() {
            lines.len() - 1
        } else {
            -1
        }
    }
}

/// The first line at or after `from` that opens a section, or the number
/// of lines.
pub open spec fn section_end(lines: Seq<Seq<char>>, from: int) -> int
    decreases lines.len() - from,
{
    if from >= lines.len() {
        lines.len() as int
    } else if starts_with(trim_start(lines[from]), seq!['[']) {
        from
    } else {
        section_end(lines, from + 1)
    }
}

/// The first line in `from..to` that sets `prefix`, or -1.
pub open spec fn entry_index(lines: Seq<Seq<char>>, from: int, to: int, prefix: Seq<char>) -> int
    decreases to - from,
{
    if from >= to {
        -1
    } else if starts_with(trim_start(lines[from]), prefix) {
        from
    } else {
        entry_index(lines, from + 1, to, prefix)
    }
}

/// The lines with `key=value` set in the default-applications section:
/// replacing the key's line there, else added at the end of that section,
/// else a new section appended (after a blank line when there are lines).
pub open spec fn upsert_lines(lines: Seq<Seq<char>>, key: Seq<char>, value: Seq<char>) -> Seq<Seq<char>> {
    let entry = key + "="@ + value;
    let start = header_index(lines);
    if start >= 0 {
        let end = section_end(lines, start + 1);
        let pos = entry_index(lines, start + 1, end, key + "="@);
        if pos >= 0 {
            lines.update(pos, entry)
        } else {
            lines.insert(end, entry)
        }
    } else {
        let base = if lines.len() > 0 {
            lines.push(Seq::empty())
        } else {
            lines
        };
        base.push(header()).push(entry)
    }
}

/// `mimeapps.list` text with `key` set to `value` as a default application.
pub open spec fn upsert_default_application_v(contents: Seq<char>, key: Seq<char>, value: Seq<char>) -> Seq<char> {
    join(upsert_lines(lines_v(contents), key, value), "\n"@).push('\n')
}

pub proof fn lemma_header_index(lines: Seq<Seq<char>>, k: int)
    requires
        0 <= k <= lines.len(),
    ensures
        -1 <= header_index(lines) < lines.len(),
        header_index(lines.subrange(0, k)) >= 0 ==> header_index(lines) == header_index(
            lines.subrange(0, k),
        ),
    decreases lines.len() - k,
{
    if k < lines.len() {
        assert(lines.subrange(0, k + 1).drop_last() =~= lines.subrange(0, k));
        lemma_header_index(lines, k + 1);
    } else {
        assert(lines.subrange(0, k) =~= lines);
        lemma_header_index_bound(lines);
    }
}

pub proof fn lemma_header_index_bound(lines: Seq<Seq<char>>)
    ensures
        -1 <= header_index(lines) < lines.len(),
    decreases lines.len(),
{
    if lines.len() > 0 {
        lemma_header_index_bound(lines.drop_last());
    }
}

pub proof fn lemma_section_end(lines: Seq<Seq<char>>, from: int)
    requires
        0 <= from,
    ensures
        from <= lines.len() ==> from <= section_end(lines, from) <= lines.len(),
        from > lines.len() ==> section_end(lines, from) == lines.len(),
    decreases lines.len() - from,
{
    if from < lines.len() && !starts_with(trim_start(lines[from]), seq!['[']) {
        lemma_section_end(lines, from + 1);
    }
}

pub proof fn lemma_entry_index(lines: Seq<Seq<char>>, from: int, to: int, prefix: Seq<char>)
    ensures
        entry_index(lines, from, to, prefix) == -1 || from <= entry_index(lines, from, to, prefix) < to,
    decreases to - from,
{
    if from < to && !starts_with(trim_start(lines[from]), prefix) {
        lemma_entry_index(lines, from + 1, to, prefix);
    }
}

proof fn lemma_header_index_char(lines: Seq<Seq<char>>)
    ensures
        header_index(lines) == -1 ==> forall|i: int| 0 <= i < lines.len() ==> trim(#[trigger] lines[i]) != header(),
        header_index(lines) >= 0 ==> {
            &&& header_index(lines) < lines.len()
            &&& trim(lines[header_index(lines)]) == header()
            &&& forall|i: int| 0 <= i < header_index(lines) ==> trim(#[trigger] lines[i]) != header()
        },
    decreases lines.len(),
{
    if lines.len() > 0 {
        let init = lines.drop_last();
        lemma_header_index_char(init);
        assert forall|i: int| 0 <= i < init.len() implies init[i] == lines[i] by {}
    }
}

/// Whether a line opens a section of the file.
pub open spec fn opens_section(l: Seq<char>) -> bool {
    starts_with(trim_start(l), seq!['['])
}

proof fn lemma_section_end_char(lines: Seq<Seq<char>>, from: int)
    requires
        0 <= from <= lines.len(),
    ensures
        from <= section_end(lines, from) <= lines.len(),
        forall|i: int| from <= i < section_end(lines, from) ==> !opens_section(#[trigger] lines[i]),
        section_end(lines, from) < lines.len() ==> opens_section(lines[section_end(lines, from)]),
    decreases lines.len() - from,
{
    if from < lines.len() && !opens_section(lines[from]) {
        lemma_section_end_char(lines, from + 1);
    }
}

proof fn lemma_entry_index_char(lines: Seq<Seq<char>>, from: int, to: int, p: Seq<char>)
    requires
        0 <= from,
        to <= lines.len(),
    ensures
        entry_index(lines, from, to, p) == -1 ==> forall|i: int|
            from <= i < to ==> !starts_with(trim_start(#[trigger] lines[i]), p),
        entry_index(lines, from, to, p) >= 0 ==> {
            &&& from <= entry_index(lines, from, to, p) < to
            &&& starts_with(trim_start(lines[entry_index(lines, from, to, p)]), p)
            &&& forall|i: int| from <= i < entry_index(lines, from, to, p) ==> !starts_with(trim_start(#[trigger] lines[i]), p)
        },
    decreases to - from,
{
    if from < to && !starts_with(trim_start(lines[from]), p) {
        lemma_entry_index_char(lines, from + 1, to, p);
    }
}

/// A key the file can hold as `key=value`: not empty, and starting with
/// neither white space nor `[`.
pub open spec fn plain_key(key: Seq<char>) -> bool {
    key.len() > 0 && !is_ws(key[0]) && key[0] != '['
}

proof fn lemma_entry_line(key: Seq<char>, value: Seq<char>)
    requires
        plain_key(key),
    ensures
        ({
            let e = key + "="@ + value;
            &&& trim_start(e) == e
            &&& starts_with(trim_start(e), key + "="@)
            &&& !opens_section(e)
            &&& trim(e) != header()
        }),
{
    reveal_strlit("=");
    reveal_strlit("[Default Applications]");
    let e = key + "="@ + value;
    let p = key + "="@;
    assert(e[0] == key[0]);
    crate::text::lemma_ws_prefix_exact(e, 0);
    assert(trim_start(e) =~= e);
    assert(e.subrange(0, p.len() as int) =~= p);
    if opens_section(e) {
        assert(e.subrange(0, 1)[0] == e[0]);
    }
    if trim(e) == header() {
        lemma_ws_suffix_bound(e);
        let t = trim_end(e);
        assert(t == e.subrange(0, e.len() - crate::text::ws_suffix_len(e)));
        assert(t.len() == header().len());
        assert(t[0] == e[0]);
        assert(header()[0] == '[');
    }
}

proof fn lemma_ws_suffix_bound(s: Seq<char>)
    ensures
        crate::text::ws_suffix_len(s) <= s.len(),
    decreases s.len(),
{
    if s.len() > 0 {
        lemma_ws_suffix_bound(s.drop_last());
    }
}

proof fn lemma_header_line()
    ensures
        trim(header()) == header(),
        trim(Seq::<char>::empty()) != header(),
        crate::text::strip_cr(header()) == header(),
{
    reveal_strlit("[Default Applications]");
    let h = header();
    crate::text::lemma_ws_prefix_exact(h, 0);
    assert(trim_start(h) =~= h);
    crate::text::lemma_ws_suffix_exact(h, 0);
    assert(trim_end(h) =~= h);
    assert(trim_start(Seq::<char>::empty()) =~= Seq::<char>::empty());
}

proof fn lemma_first_header_kept(lines: Seq<Seq<char>>, l2: Seq<Seq<char>>, start: int)
    requires
        0 <= start < lines.len(),
        start < l2.len(),
        header_index(lines) == start,
        forall|i: int| 0 <= i <= start ==> #[trigger] l2[i] == lines[i],
    ensures
        header_index(l2) == start,
{
    lemma_header_index_char(lines);
    lemma_header_index_char(l2);
    let h2 = header_index(l2);
    assert(l2[start] == lines[start]);
    if h2 != start {
        if h2 > start {
            assert(trim(l2[start]) != header());
        } else if h2 >= 0 {
            assert(l2[h2] == lines[h2]);
        }
    }
}

proof fn lemma_entry_index_at(lines: Seq<Seq<char>>, from: int, to: int, p: Seq<char>, k: int)
    requires
        0 <= from <= k < to,
        to <= lines.len(),
        starts_with(trim_start(lines[k]), p),
        forall|i: int| from <= i < k ==> !starts_with(trim_start(#[trigger] lines[i]), p),
    ensures
        entry_index(lines, from, to, p) == k,
    decreases k - from,
{
    if from < k {
        lemma_entry_index_at(lines, from + 1, to, p, k);
    }
}

proof fn lemma_section_end_at(lines: Seq<Seq<char>>, from: int, k: int)
    requires
        0 <= from <= k <= lines.len(),
        k < lines.len() ==> opens_section(lines[k]),
        forall|i: int| from <= i < k ==> !opens_section(#[trigger] lines[i]),
    ensures
        section_end(lines, from) == k,
    decreases k - from,
{
    if from < k {
        lemma_section_end_at(lines, from + 1, k);
    }
}

/// Line `q` is the first line setting `key` in the first
/// default-applications section of `m`.
pub open spec fn entry_in_section(m: Seq<Seq<char>>, q: int, key: Seq<char>) -> bool {
    let h = header_index(m);
    &&& h >= 0
    &&& h < q < section_end(m, h + 1)
    &&& entry_index(m, h + 1, section_end(m, h + 1), key + "="@) == q
}

/// Where setting a default application puts its entry: the key's line in
/// the section, else the section's end, else the last line of a new section.
pub open spec fn upsert_pos(lines: Seq<Seq<char>>, key: Seq<char>) -> int {
    let start = header_index(lines);
    if start >= 0 {
        let end = section_end(lines, start + 1);
        let pos = entry_index(lines, start + 1, end, key + "="@);
        if pos >= 0 {
            pos
        } else {
            end
        }
    } else {
        if lines.len() > 0 {
            lines.len() as int + 2
        } else {
            1int
        }
    }
}

proof fn lemma_upsert_replaced(lines: Seq<Seq<char>>, key: Seq<char>, value: Seq<char>, w: Seq<char>)
    requires
        plain_key(key),
        header_index(lines) >= 0,
        entry_index(lines, header_index(lines) + 1, section_end(lines, header_index(lines) + 1), key + "="@) >= 0,
    ensures
        0 <= upsert_pos(lines, key) < upsert_lines(lines, key, value).len(),
        upsert_lines(lines, key, value)[upsert_pos(lines, key)] == key + "="@ + value,
        upsert_lines(upsert_lines(lines, key, value).update(upsert_pos(lines, key), key + "="@ + w), key, value)
            == upsert_lines(lines, key, value),
        entry_in_section(
            upsert_lines(lines, key, value).update(upsert_pos(lines, key), key + "="@ + w),
            upsert_pos(lines, key),
            key,
        ),
{
    let e = key + "="@ + value;
    let e2 = key + "="@ + w;
    let p = key + "="@;
    lemma_entry_line(key, value);
    lemma_entry_line(key, w);
    let start = header_index(lines);
    lemma_header_index_char(lines);
    lemma_section_end_char(lines, start + 1);
    let end = section_end(lines, start + 1);
    lemma_entry_index_char(lines, start + 1, end, p);
    let pos = entry_index(lines, start + 1, end, p);
    let l2 = lines.update(pos, e);
    assert(upsert_lines(lines, key, value) == l2);
    let m = lines.update(pos, e2);
    assert(l2.update(pos, e2) =~= m);
    lemma_first_header_kept(lines, m, start);
    assert forall|i: int| start + 1 <= i < end implies !opens_section(#[trigger] m[i]) by {
        if i != pos {
            assert(m[i] == lines[i]);
        }
    }
    if end < m.len() {
        assert(m[end] == lines[end]);
    }
    lemma_section_end_at(m, start + 1, end);
    assert forall|i: int| start + 1 <= i < pos implies !starts_with(trim_start(#[trigger] m[i]), p) by {
        assert(m[i] == lines[i]);
    }
    assert(m[pos] == e2);
    lemma_entry_index_at(m, start + 1, end, p, pos);
    assert(m.update(pos, e) =~= l2);
}

proof fn lemma_upsert_inserted(lines: Seq<Seq<char>>, key: Seq<char>, value: Seq<char>, w: Seq<char>)
    requires
        plain_key(key),
        header_index(lines) >= 0,
        entry_index(lines, header_index(lines) + 1, section_end(lines, header_index(lines) + 1), key + "="@) < 0,
    ensures
        0 <= upsert_pos(lines, key) < upsert_lines(lines, key, value).len(),
        upsert_lines(lines, key, value)[upsert_pos(lines, key)] == key + "="@ + value,
        upsert_lines(upsert_lines(lines, key, value).update(upsert_pos(lines, key), key + "="@ + w), key, value)
            == upsert_lines(lines, key, value),
        entry_in_section(
            upsert_lines(lines, key, value).update(upsert_pos(lines, key), key + "="@ + w),
            upsert_pos(lines, key),
            key,
        ),
{
    let e = key + "="@ + value;
    let e2 = key + "="@ + w;
    let p = key + "="@;
    lemma_entry_line(key, value);
    lemma_entry_line(key, w);
    let start = header_index(lines);
    lemma_header_index_char(lines);
    lemma_section_end_char(lines, start + 1);
    let end = section_end(lines, start + 1);
    lemma_entry_index_char(lines, start + 1, end, p);
    lemma_entry_index(lines, start + 1, end, p);
    assert(entry_index(lines, start + 1, end, p) == -1);
    let l2 = lines.insert(end, e);
    assert(upsert_lines(lines, key, value) == l2);
    let m = lines.insert(end, e2);
    assert(l2.update(end, e2) =~= m);
    lemma_first_header_kept(lines, m, start);
    assert forall|i: int| start + 1 <= i < end + 1 implies !opens_section(#[trigger] m[i]) by {
        if i < end {
            assert(m[i] == lines[i]);
        } else {
            assert(m[i] == e2);
        }
    }
    if end + 1 < m.len() {
        assert(m[end + 1] == lines[end]);
    }
    lemma_section_end_at(m, start + 1, end + 1);
    assert forall|i: int| start + 1 <= i < end implies !starts_with(trim_start(#[trigger] m[i]), p) by {
        assert(m[i] == lines[i]);
    }
    assert(m[end] == e2);
    lemma_entry_index_at(m, start + 1, end + 1, p, end);
    assert(m.update(end, e) =~= l2);
}

proof fn lemma_upsert_appended(lines: Seq<Seq<char>>, key: Seq<char>, value: Seq<char>, w: Seq<char>)
    requires
        plain_key(key),
        header_index(lines) < 0,
    ensures
        0 <= upsert_pos(lines, key) < upsert_lines(lines, key, value).len(),
        upsert_lines(lines, key, value)[upsert_pos(lines, key)] == key + "="@ + value,
        upsert_lines(upsert_lines(lines, key, value).update(upsert_pos(lines, key), key + "="@ + w), key, value)
            == upsert_lines(lines, key, value),
        entry_in_section(
            upsert_lines(lines, key, value).update(upsert_pos(lines, key), key + "="@ + w),
            upsert_pos(lines, key),
            key,
        ),
{
    let e = key + "="@ + value;
    let e2 = key + "="@ + w;
    let p = key + "="@;
    lemma_entry_line(key, value);
    lemma_entry_line(key, w);
    lemma_header_line();
    lemma_header_index_char(lines);
    let base = if lines.len() > 0 {
        lines.push(Seq::empty())
    } else {
        lines
    };
    let b = base.len() as int;
    let l2 = base.push(header()).push(e);
    assert(upsert_lines(lines, key, value) == l2);
    let m = base.push(header()).push(e2);
    assert(l2.update(b + 1, e2) =~= m);
    lemma_header_index_char(m);
    let h2 = header_index(m);
    assert(m[b] == header());
    assert(m[b + 1] == e2);
    assert forall|i: int| 0 <= i < b implies trim(#[trigger] m[i]) != header() by {
        assert(m[i] == base[i]);
        if i < lines.len() {
            assert(base[i] == lines[i]);
        } else {
            assert(base[i] == Seq::<char>::empty());
        }
    }
    if h2 > b {
        assert(trim(m[b]) != header());
    }
    assert(h2 == b);
    lemma_section_end_char(m, b + 1);
    let end2 = section_end(m, b + 1);
    if end2 == b + 1 {
        assert(opens_section(m[b + 1]));
    }
    assert(end2 == b + 2);
    assert(entry_index(m, b + 1, b + 2, p) == b + 1);
    assert(m.update(b + 1, e) =~= l2);
}

/// Setting a default application again over its own result, with the entry
/// line's value since changed (a reading that dropped its carriage return),
/// writes the same lines: the entry is found where the first call put it.
proof fn lemma_upsert_lines_stable(lines: Seq<Seq<char>>, key: Seq<char>, value: Seq<char>, w: Seq<char>)
    requires
        plain_key(key),
    ensures
        0 <= upsert_pos(lines, key) < upsert_lines(lines, key, value).len(),
        upsert_lines(lines, key, value)[upsert_pos(lines, key)] == key + "="@ + value,
        upsert_lines(upsert_lines(lines, key, value).update(upsert_pos(lines, key), key + "="@ + w), key, value)
            == upsert_lines(lines, key, value),
        entry_in_section(
            upsert_lines(lines, key, value).update(upsert_pos(lines, key), key + "="@ + w),
            upsert_pos(lines, key),
            key,
        ),
{
    let start = header_index(lines);
    if start >= 0 {
        let end = section_end(lines, start + 1);
        if entry_index(lines, start + 1, end, key + "="@) >= 0 {
            lemma_upsert_replaced(lines, key, value, w);
        } else {
            lemma_upsert_inserted(lines, key, value, w);
        }
    } else {
        lemma_upsert_appended(lines, key, value, w);
    }
}

proof fn lemma_split_pieces(s: Seq<char>, sep: char)
    ensures
        forall|i: int| 0 <= i < split_char(s, sep).len() ==> !(#[trigger] split_char(s, sep)[i]).contains(sep),
    decreases s.len(),
{
    if s.len() > 0 {
        let rest = split_char(s.drop_last(), sep);
        lemma_split_pieces(s.drop_last(), sep);
        crate::text::lemma_split_char_len(s.drop_last(), sep);
        if s.last() != sep {
            let last = rest.last().push(s.last());
            assert(!rest[rest.len() - 1].contains(sep));
            assert forall|k: int| 0 <= k < last.len() implies last[k] != sep by {
                if k < rest.last().len() {
                    assert(last[k] == rest.last()[k]);
                }
            }
            assert forall|i: int| 0 <= i < split_char(s, sep).len() implies !(#[trigger] split_char(s, sep)[i]).contains(sep) by {
                if i < rest.len() - 1 {
                    assert(split_char(s, sep)[i] == rest[i]);
                }
            }
        } else {
            assert forall|i: int| 0 <= i < split_char(s, sep).len() implies !(#[trigger] split_char(s, sep)[i]).contains(sep) by {
                if i < rest.len() {
                    assert(split_char(s, sep)[i] == rest[i]);
                } else {
                    assert(split_char(s, sep)[i] =~= Seq::<char>::empty());
                }
            }
        }
    }
}

proof fn lemma_lines_no_break(s: Seq<char>)
    ensures
        forall|i: int| 0 <= i < lines_v(s).len() ==> !(#[trigger] lines_v(s)[i]).contains('\n'),
{
    let p = split_char(s, '\n');
    lemma_split_pieces(s, '\n');
    crate::text::lemma_split_char_len(s, '\n');
    assert forall|i: int| 0 <= i < lines_v(s).len() implies !(#[trigger] lines_v(s)[i]).contains('\n') by {
        if i < p.len() - 1 {
            let l = p[i];
            assert(!l.contains('\n'));
            assert(lines_v(s)[i] == crate::text::strip_cr(l));
            if crate::text::strip_cr(l).contains('\n') {
                let k = choose|k: int| 0 <= k < crate::text::strip_cr(l).len() && crate::text::strip_cr(l)[k] == '\n';
                assert(l[k] == '\n');
            }
        } else {
            assert(lines_v(s)[i] == p.last());
            assert(p.last() == p[p.len() - 1]);
        }
    }
}

/// Registering the app as a default application writes a file whose first
/// default-applications section sets the key to the value (its first line
/// for the key), keeps every other line of the file in order, and ends in a
/// line break; registering again leaves the file as the first registration
/// wrote it. This holds for a key that is not empty, starts with neither
/// white space nor `[`, and holds no line break, and a value without line
/// breaks, in a file none of whose lines ends in a carriage return.
pub proof fn law_upsert_default_application_idempotent(contents: Seq<char>, key: Seq<char>, value: Seq<char>)
    requires
        plain_key(key),
        !key.contains('\n'),
        !value.contains('\n'),
        forall|i: int| 0 <= i < lines_v(contents).len() ==> #[trigger] crate::text::strip_cr(lines_v(contents)[i])
            == lines_v(contents)[i],
    ensures
        upsert_default_application_v(upsert_default_application_v(contents, key, value), key, value)
            == upsert_default_application_v(contents, key, value),
        upsert_default_application_v(contents, key, value).last() == '\n',
        lines_v(upsert_default_application_v(contents, key, value)) == upsert_lines(lines_v(contents), key, value).update(
            upsert_pos(lines_v(contents), key),
            key + "="@ + crate::text::strip_cr(value),
        ),
        entry_in_section(
            lines_v(upsert_default_application_v(contents, key, value)),
            upsert_pos(lines_v(contents), key),
            key,
        ),
        lines_v(upsert_default_application_v(contents, key, value))[upsert_pos(lines_v(contents), key)] == key
            + "="@ + crate::text::strip_cr(value),
{
    reveal_strlit("=");
    reveal_strlit("[Default Applications]");
    let ls = lines_v(contents);
    let l2 = upsert_lines(ls, key, value);
    let e = key + "="@ + value;
    let w = crate::text::strip_cr(value);
    lemma_upsert_lines_stable(ls, key, value, w);
    let q = upsert_pos(ls, key);
    lemma_lines_no_break(contents);
    lemma_header_line();
    assert(!e.contains('\n')) by {
        if e.contains('\n') {
            let k = choose|k: int| 0 <= k < e.len() && e[k] == '\n';
            if k < key.len() {
                assert(key[k] == '\n');
            } else if k == key.len() {
                assert(e[k] == '=');
            } else {
                assert(value[k - key.len() - 1] == '\n');
            }
        }
    }
    assert(crate::text::strip_cr(e) == key + "="@ + w) by {
        if value.len() > 0 && value.last() == '\r' {
            assert(e.last() == value.last());
            assert(e.drop_last() =~= key + "="@ + value.drop_last());
        } else {
            assert(e.len() > 0 && e.last() != '\r') by {
                if value.len() == 0 {
                    assert(e.last() == '=');
                } else {
                    assert(e.last() == value.last());
                }
            }
        }
    }
    assert(!header().contains('\n'));
    assert(!Seq::<char>::empty().contains('\n'));
    let start = header_index(ls);
    lemma_header_index_bound(ls);
    if start >= 0 {
        lemma_section_end(ls, start + 1);
        let end = section_end(ls, start + 1);
        lemma_entry_index(ls, start + 1, end, key + "="@);
    }
    assert(l2.len() > 0);
    assert forall|i: int| 0 <= i < l2.len() implies !(#[trigger] l2[i]).contains('\n') && (i != q ==> crate::text::strip_cr(
        l2[i],
    ) == l2[i]) by {
        if i == q {
            assert(l2[i] == e);
        } else if start >= 0 {
            let end = section_end(ls, start + 1);
            let pos = entry_index(ls, start + 1, end, key + "="@);
            if pos >= 0 {
                assert(l2[i] == ls[i]);
            } else {
                if i < end {
                    assert(l2[i] == ls[i]);
                } else {
                    assert(l2[i] == ls[i - 1]);
                }
            }
        } else {
            let base = if ls.len() > 0 {
                ls.push(Seq::empty())
            } else {
                ls
            };
            if i < ls.len() {
                assert(l2[i] == ls[i]);
            } else if i < base.len() {
                assert(l2[i] == Seq::<char>::empty());
            } else {
                assert(l2[i] == header());
            }
        }
    }
    crate::text::lemma_lines_of_written(l2);
    assert(l2.map_values(|l: Seq<char>| crate::text::strip_cr(l)) =~= l2.update(q, key + "="@ + w));
}

/// `mimeapps.list` text with `key=value` set as a default application (see
/// [`upsert_default_application_v`]).
pub fn upsert_default_application(contents: &str, key: &str, value: &str) -> (r: String)
    ensures
        r@ == upsert_default_application_v(contents@, key@, value@),
{
    proof {
        reveal_strlit("[Default Applications]");
        reveal_strlit("=");
        reveal_strlit("[");
    }
    let mut entry = own(key);
    entry.push_str("=");
    let key_prefix = entry.clone();
    entry.push_str(value);
    let mut lines = lines_of(contents);
    let ghost lv = lines@.map_values(|x: String| x@);
    // the header line
    let mut start: usize = 0;
    while start < lines.len() && !str_eq(trim_str(lines[start].as_str()).as_str(), "[Default Applications]")
        invariant
            start <= lines.len(),
            lv == lines@.map_values(|x: String| x@),
            header_index(lv.subrange(0, start as int)) == -1,
        decreases lines.len() - start,
    {
        assert(lv.subrange(0, start + 1).drop_last() =~= lv.subrange(0, start as int));
        start += 1;
    }
    proof {
        lemma_header_index(lv, start as int);
        if start < lines.len() {
            assert(lv.subrange(0, start + 1).drop_last() =~= lv.subrange(0, start as int));
            lemma_header_index(lv, start + 1);
        } else {
            assert(lv.subrange(0, start as int) =~= lv);
        }
    }
    if start < lines.len() {
        assert("["@ =~= seq!['[']);
        let mut end: usize = start + 1;
        while end < lines.len() && !starts_with_str(trim_start_str(lines[end].as_str()).as_str(), "[")
            invariant
                start < end <= lines.len(),
                lv == lines@.map_values(|x: String| x@),
                section_end(lv, start + 1) == section_end(lv, end as int),
                "["@ == seq!['['],
            decreases lines.len() - end,
        {
            end += 1;
        }
        let mut pos: usize = start + 1;
        while pos < end && !starts_with_str(trim_start_str(lines[pos].as_str()).as_str(), key_prefix.as_str())
            invariant
                start < pos <= end <= lines.len(),
                lv == lines@.map_values(|x: String| x@),
                entry_index(lv, start + 1, end as int, key_prefix@) == entry_index(lv, pos as int, end as int, key_prefix@),
            decreases end - pos,
        {
            pos += 1;
        }
        if pos < end {
            lines.set(pos, entry);
            assert(lines@.map_values(|x: String| x@) =~= lv.update(pos as int, entry@));
        } else {
            lines.insert(end, entry);
            assert(lines@.map_values(|x: String| x@) =~= lv.insert(end as int, entry@));
        }
    } else {
        if lines.len() > 0 {
            lines.push(String::new());
        }
        lines.push(own("[Default Applications]"));
        lines.push(entry);
        let ghost base = if lv.len() > 0 { lv.push(Seq::empty()) } else { lv };
        assert(lines@.map_values(|x: String| x@) =~= base.push(header()).push(entry@));
    }
    let mut out = join_strings(&lines, "\n");
    out.push('\n');
    proof {
        reveal_strlit("\n");
    }
    out
}

/// A `nyx://` URL taken apart: host, path and query pairs in order.
pub struct UrlParts {
    pub host: Option<String>,
    pub path: String,
    pub query: Vec<(String, String)>,
}

pub struct UrlPartsV {
    pub host: Option<Seq<char>>,
    pub path: Seq<char>,
    pub query: Seq<(Seq<char>, Seq<char>)>,
}

impl View for UrlParts {
    type V = UrlPartsV;

    open spec fn view(&self) -> UrlPartsV {
        UrlPartsV {
            host: match self.host {
                Some(h) => Some(h@),
                None => None,
            },
            path: self.path@,
            query: self.query@.map_values(|q: (String, String)| (q.0@, q.1@)),
        }
    }
}

/// What the `url` crate reads a text as: its host, path and query pairs, or
/// nothing when it is no URL.
pub uninterp spec fn url_parsed(s: Seq<char>) -> Option<UrlPartsV>;

/// Parses a URL with `url::Url::parse` and reads its host (`host_str`),
/// path (`path`) and decoded query pairs (`query_pairs`).
#[verifier::external_body]
fn parse_url(s: &str) -> (r: Option<UrlParts>)
    ensures
        match r {
            Some(p) => url_parsed(s@) == Some(p@),
            None => url_parsed(s@) is None,
        },
{
    let u = match url::Url::parse(s) {
        Ok(u) => u,
        Err(_) => return None,
    };
    let mut query = Vec::new();
    for (k, v) in u.query_pairs() {
        query.push((k.into_owned(), v.into_owned()));
    }
    let host = match u.host_str() {
        Some(h) => Some(h.to_string()),
        None => None,
    };
    Some(UrlParts { host, path: u.path().to_string(), query })
}

/// `s` without its leading slashes.
pub open spec fn drop_slashes(s: Seq<char>) -> Seq<char>
    decreases s.len(),
{
    if s.len() > 0 && s[0] == '/' {
        drop_slashes(s.drop_first())
    } else {
        s
    }
}

/// The command a deep link names: its host, else its path without leading
/// slashes (`nyx://install-config?…` or `nyx:/install-config?…`).
pub open spec fn link_command(p: UrlPartsV) -> Seq<char> {
    match p.host {
        Some(h) => if h.len() > 0 {
            h
        } else {
            drop_slashes(p.path)
        },
        None => drop_slashes(p.path),
    }
}

/// The value of the last query pair named `key` (later pairs win).
pub open spec fn query_param(q: Seq<(Seq<char>, Seq<char>)>, key: Seq<char>) -> Option<Seq<char>>
    decreases q.len(),
{
    if q.len() == 0 {
        None
    } else if q.last().0 == key {
        Some(q.last().1)
    } else {
        query_param(q.drop_last(), key)
    }
}

/// What a deep link asks for.
pub enum DeepLink {
    /// The text is no URL.
    Unparsable,
    /// `install-config`: add the remote profile at `url` (named `name`, empty
    /// when not given) and make it current.
    InstallConfig { url: String, name: String },
    /// `install-config` without a `url`.
    MissingUrl,
    /// Any other command.
    Unknown(String),
}

/// The deep link a URL text stands for.
pub open spec fn deep_link_v(url: Seq<char>) -> Option<(Seq<char>, Option<Seq<char>>, Seq<char>)> {
    deep_link_parts_v(url_parsed(url))
}

/// The command, the `url` parameter and the `name` parameter (empty when not
/// given) of a URL taken apart, or nothing when it is no URL.
pub open spec fn deep_link_parts_v(parsed: Option<UrlPartsV>) -> Option<(Seq<char>, Option<Seq<char>>, Seq<char>)> {
    match parsed {
        Some(p) => Some((link_command(p), query_param(p.query, "url"@), match query_param(p.query, "name"@) {
            Some(n) => n,
            None => Seq::empty(),
        })),
        None => None,
    }
}

/// The deep link the parts `d` (see [`deep_link_parts_v`]) ask for.
pub open spec fn deep_link_is(r: DeepLink, d: Option<(Seq<char>, Option<Seq<char>>, Seq<char>)>) -> bool {
    match d {
        None => r is Unparsable,
        Some((cmd, u, name)) => if cmd == "install-config"@ {
            match u {
                Some(uv) => r matches DeepLink::InstallConfig { url: a, name: b } && a@ == uv && b@ == name,
                None => r is MissingUrl,
            }
        } else {
            r matches DeepLink::Unknown(c) && c@ == cmd
        },
    }
}

fn drop_slashes_exec(s: &str) -> (r: String)
    ensures
        r@ == drop_slashes(s@),
{
    let cs = to_chars(s);
    let mut a: usize = 0;
    assert(s@.subrange(0, s@.len() as int) =~= s@);
    while a < cs.len() && cs[a] == '/'
        invariant
            a <= cs.len(),
            cs@ == s@,
            drop_slashes(s@) == drop_slashes(s@.subrange(a as int, s@.len() as int)),
        decreases cs.len() - a,
    {
        assert(s@.subrange(a as int, s@.len() as int).drop_first() =~= s@.subrange(a + 1, s@.len() as int));
        a += 1;
    }
    from_chars(slice_range(cs.as_slice(), a, cs.len()).as_slice())
}

fn find_param(q: &Vec<(String, String)>, key: &str) -> (r: Option<String>)
    ensures
        match r {
            Some(v) => query_param(q@.map_values(|x: (String, String)| (x.0@, x.1@)), key@) == Some(v@),
            None => query_param(q@.map_values(|x: (String, String)| (x.0@, x.1@)), key@) is None,
        },
{
    let ghost qv = q@.map_values(|x: (String, String)| (x.0@, x.1@));
    let mut i: usize = q.len();
    assert(qv.subrange(0, q.len() as int) =~= qv);
    while i > 0
        invariant
            i <= q.len(),
            qv == q@.map_values(|x: (String, String)| (x.0@, x.1@)),
            query_param(qv, key@) == query_param(qv.subrange(0, i as int), key@),
        decreases i,
    {
        let ghost pre = qv.subrange(0, i as int);
        assert(pre.last() == qv[i - 1]);
        if str_eq(q[i - 1].0.as_str(), key) {
            return Some(q[i - 1].1.clone());
        }
        assert(pre.drop_last() =~= qv.subrange(0, i - 1));
        i -= 1;
    }
    None
}

/// The deep link a URL taken apart by the `url` crate asks for (`None`:
/// the text was no URL).
pub fn deep_link_from(parsed: Option<UrlParts>) -> (r: DeepLink)
    ensures
        deep_link_is(
            r,
            deep_link_parts_v(
                match parsed {
                    Some(p) => Some(p@),
                    None => None,
                },
            ),
        ),
{
    let p = match parsed {
        Some(p) => p,
        None => return DeepLink::Unparsable,
    };
    let cmd = match &p.host {
        Some(h) => if !h.as_str().is_empty() {
            h.clone()
        } else {
            drop_slashes_exec(p.path.as_str())
        },
        None => drop_slashes_exec(p.path.as_str()),
    };
    if str_eq(cmd.as_str(), "install-config") {
        match find_param(&p.query, "url") {
            Some(u) => {
                let name = match find_param(&p.query, "name") {
                    Some(n) => n,
                    None => String::new(),
                };
                DeepLink::InstallConfig { url: u, name }
            },
            None => DeepLink::MissingUrl,
        }
    } else {
        DeepLink::Unknown(cmd)
    }
}

/// Reads a deep link (see [`deep_link_v`]).
pub fn parse_deep_link(url: &str) -> (r: DeepLink)
    ensures
        deep_link_is(r, deep_link_v(url@)),
{
    deep_link_from(parse_url(url))
}

/// The profile item a deep link installs: `{type: remote, url, name}`.
pub fn install_item(url: &str, name: &str) -> (r: Json)
    ensures
        r@ == JsonV::Object(
            seq![("type"@, JsonV::Str("remote"@)), ("url"@, JsonV::Str(url@)), ("name"@, JsonV::Str(name@))],
        ),
{
    let e = with_member(Vec::new(), "type", Json::Str(own("remote")));
    let e = with_member(e, "url", Json::Str(own(url)));
    let e = with_member(e, "name", Json::Str(own(name)));
    proof {
        crate::json::lemma_view_entries_len(Seq::<(String, Json)>::empty());
        assert(crate::json::view_entries(Seq::<(String, Json)>::empty()) =~= Seq::<(Seq<char>, JsonV)>::empty());
    }
    assert(crate::json::view_entries(e@) =~= seq![("type"@, JsonV::Str("remote"@)), ("url"@, JsonV::Str(url@)), ("name"@, JsonV::Str(name@))]);
    Json::Object(e)
}

/// The argument a relaunched instance gets, to wait for the old one to let
/// go of the lock.
pub const RELAUNCH_FLAG: &'static str = "--nyx-relaunch";

/// The first `nyx://` argument, if any.
pub open spec fn deep_link_arg_v(args: Seq<Seq<char>>) -> Option<Seq<char>>
    decreases args.len(),
{
    if args.len() == 0 {
        None
    } else if starts_with(args[0], "nyx://"@) {
        Some(args[0])
    } else {
        deep_link_arg_v(args.drop_first())
    }
}

/// The deep link among the process arguments.
pub fn deep_link_arg(args: &Vec<String>) -> (r: Option<String>)
    ensures
        match r {
            Some(a) => deep_link_arg_v(args@.map_values(|x: String| x@)) == Some(a@),
            None => deep_link_arg_v(args@.map_values(|x: String| x@)) is None,
        },
{
    let ghost av = args@.map_values(|x: String| x@);
    let mut i: usize = 0;
    assert(av.subrange(0, av.len() as int) =~= av);
    while i < args.len()
        invariant
            i <= args.len(),
            av == args@.map_values(|x: String| x@),
            deep_link_arg_v(av) == deep_link_arg_v(av.subrange(i as int, av.len() as int)),
        decreases args.len() - i,
    {
        let ghost t = av.subrange(i as int, av.len() as int);
        assert(t[0] == args@[i as int]@);
        if starts_with_str(args[i].as_str(), "nyx://") {
            return Some(args[i].clone());
        }
        assert(t.drop_first() =~= av.subrange(i + 1, av.len() as int));
        i += 1;
    }
    None
}

/// The URL a second instance started with `args` forwards.
pub open spec fn forward_url_v(args: Seq<Seq<char>>) -> Seq<char> {
    match deep_link_arg_v(args) {
        Some(a) => a,
        None => "nyx://show"@,
    }
}

/// What a second instance hands the running one: its deep link, else a
/// request to show the window.
pub fn forward_url(args: &Vec<String>) -> (r: String)
    ensures
        r@ == forward_url_v(args@.map_values(|x: String| x@)),
{
    match deep_link_arg(args) {
        Some(a) => a,
        None => own("nyx://show"),
    }
}

/// A URL received from another instance (trimmed), unless blank.
pub fn received_url(text: &str) -> (r: Option<String>)
    ensures
        trim(text@).len() == 0 ==> r is None,
        trim(text@).len() > 0 ==> (r matches Some(u) && u@ == trim(text@)),
{
    let t = trim_str(text);
    if t.as_str().is_empty() {
        None
    } else {
        Some(t)
    }
}

proof fn lemma_deep_link_arg_prefix(args: Seq<Seq<char>>)
    ensures
        deep_link_arg_v(args) matches Some(a) ==> starts_with(a, "nyx://"@),
    decreases args.len(),
{
    if args.len() > 0 && !starts_with(args[0], "nyx://"@) {
        lemma_deep_link_arg_prefix(args.drop_first());
    }
}

/// What a second instance forwards is what the running one receives: its
/// deep link, when that does not end in white space, or else the request to
/// show the window, arrives unchanged.
pub proof fn law_forwarded_url_received(args: Seq<Seq<char>>)
    requires
        deep_link_arg_v(args) matches Some(a) ==> !is_ws(a.last()),
    ensures
        trim(forward_url_v(args)) == forward_url_v(args),
        trim(forward_url_v(args)).len() > 0,
{
    let u = forward_url_v(args);
    reveal_strlit("nyx://");
    reveal_strlit("nyx://show");
    lemma_deep_link_arg_prefix(args);
    assert(u.subrange(0, 6) == "nyx://"@);
    assert(u[0] == u.subrange(0, 6)[0]);
    assert(!is_ws(u[0]));
    assert(!is_ws(u[u.len() - 1]));
    crate::text::lemma_ws_prefix_exact(u, 0);
    assert(trim_start(u) =~= u);
    crate::text::lemma_ws_suffix_exact(u, 0);
    assert(trim_end(u) =~= u);
}

/// Whether this process was started by a restart of the app.
pub fn is_relaunch(args: &Vec<String>) -> (r: bool)
    ensures
        r == args@.map_values(|x: String| x@).contains(RELAUNCH_FLAG@),
{
    crate::text::in_list(args, RELAUNCH_FLAG)
}

/// Where a Nix-installed app's stable launcher may live, in the order they
/// are tried: the user's profile, the home profile, the system profile.
pub open spec fn launcher_candidates_v(user: Option<Seq<char>>, home: Option<Seq<char>>, name: Seq<char>) -> Seq<Seq<char>> {
    let a: Seq<Seq<char>> = match user {
        Some(u) => seq!["/etc/profiles/per-user/"@ + u + "/bin/"@ + name],
        None => Seq::empty(),
    };
    let b: Seq<Seq<char>> = match home {
        Some(h) => seq![crate::core_control::path_join_v(h, ".nix-profile/bin"@, false) + "/"@ + name],
        None => Seq::empty(),
    };
    a + b + seq!["/run/current-system/sw/bin/"@ + name]
}

/// The launcher paths to try for an executable named `name` from the Nix
/// store (the first that exists is registered for autostart).
pub fn launcher_candidates(user: Option<&str>, home: Option<&str>, name: &str) -> (r: Vec<String>)
    ensures
        r@.map_values(|x: String| x@) == launcher_candidates_v(
            match user {
                Some(u) => Some(u@),
                None => None,
            },
            match home {
                Some(h) => Some(h@),
                None => None,
            },
            name@,
        ),
{
    let mut out: Vec<String> = Vec::new();
    match user {
        Some(u) => {
            let mut p = own("/etc/profiles/per-user/");
            p.push_str(u);
            p.push_str("/bin/");
            p.push_str(name);
            out.push(p);
        },
        None => {},
    }
    match home {
        Some(h) => {
            let mut p = crate::core_control::path_join(h, ".nix-profile/bin", false);
            p.push_str("/");
            p.push_str(name);
            out.push(p);
        },
        None => {},
    }
    let mut p = own("/run/current-system/sw/bin/");
    p.push_str(name);
    out.push(p);
    let ghost want = launcher_candidates_v(
        match user {
            Some(u) => Some(u@),
            None => None,
        },
        match home {
            Some(h) => Some(h@),
            None => None,
        },
        name@,
    );
    assert(out@.map_values(|x: String| x@) =~= want);
    out
}

} // verus!
