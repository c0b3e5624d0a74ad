use vstd::prelude::*;

verus! {

/// `String::push`: the character is appended to the text.
pub assume_specification[ String::push ](s: &mut String, ch: char)
    ensures
        final(s)@ == old(s)@.push(ch),
;

/// `String::push_str`: the characters of `t` are appended to the text.
pub assume_specification[ String::push_str ](s: &mut String, t: &str)
    ensures
        final(s)@ == old(s)@ + t@,
;

/// An owned copy of `s`.
pub fn own(s: &str) -> (r: String)
    ensures
        r@ == s@,
{
    let mut r = String::new();
    r.push_str(s);
    assert(r@ =~= s@);
    r
}

/// `a` followed by `b`.
pub fn cat(a: &str, b: &str) -> (r: String)
    ensures
        r@ == a@ + b@,
{
    let mut r = String::new();
    r.push_str(a);
    r.push_str(b);
    assert(r@ =~= a@ + b@);
    r
}

/// `==` on `str`: true exactly when the two texts hold the same characters.
pub assume_specification[ <str as PartialEq>::eq ](a: &str, b: &str) -> (r: bool)
    ensures
        r == (a@ == b@),
;

/// Whether two texts hold the same characters.
pub fn str_eq(a: &str, b: &str) -> (r: bool)
    ensures
        r == (a@ == b@),
{
    *a == *b
}

/// The characters of `s`, in order.
pub fn to_chars(s: &str) -> (out: Vec<char>)
    ensures
        out@ == s@,
{
    broadcast use vstd::string::group_string_axioms;
    let mut out: Vec<char> = Vec::new();
    for c in it: s.chars()
        invariant
            out@ == it.seq().take(it.index() as int),
            it.seq() == s@,
    {
        out.push(c);
    }
    out
}

/// A `String` holding exactly the characters of `cs`.
pub fn from_chars(cs: &[char]) -> (out: String)
    ensures
        out@ == cs@,
{
    let mut out = String::new();
    let mut i: usize = 0;
    while i < cs.len()
        invariant
            i <= cs.len(),
            out@ == cs@.subrange(0, i as int),
        decreases cs.len() - i,
    {
        out.push(cs[i]);
        i += 1;
        assert(out@ == cs@.subrange(0, i as int));
    }
    out
}


/// Whether `c` is a Unicode `White_Space` character.
pub open spec fn is_ws(c: char) -> bool {
    let n = c as u32;
    (0x09 <= n <= 0x0d) || n == 0x20 || n == 0x85 || n == 0xa0 || n == 0x1680 || (0x2000 <= n
        <= 0x200a) || n == 0x2028 || n == 0x2029 || n == 0x202f || n == 0x205f || n == 0x3000
}

pub fn is_ws_exec(c: char) -> (r: bool)
    ensures
        r == is_ws(c),
{
    let n = c as u32;
    (0x09 <= n && n <= 0x0d) || n == 0x20 || n == 0x85 || n == 0xa0 || n == 0x1680 || (0x2000 <= n
        && n <= 0x200a) || n == 0x2028 || n == 0x2029 || n == 0x202f || n == 0x205f || n == 0x3000
}

/// The number of leading white-space characters.
pub open spec fn ws_prefix_len(s: Seq<char>) -> nat
    decreases s.len(),
{
    if s.len() > 0 && is_ws(s[0]) {
        1 + ws_prefix_len(s.subrange(1, s.len() as int))
    } else {
        0
    }
}

/// The number of trailing white-space characters.
pub open spec fn ws_suffix_len(s: Seq<char>) -> nat
    decreases s.len(),
{
    if s.len() > 0 && is_ws(s[s.len() - 1]) {
        1 + ws_suffix_len(s.subrange(0, s.len() - 1))
    } else {
        0
    }
}

pub open spec fn trim_start(s: Seq<char>) -> Seq<char> {
    s.subrange(ws_prefix_len(s) as int, s.len() as int)
}

pub open spec fn trim_end(s: Seq<char>) -> Seq<char> {
    s.subrange(0, s.len() - ws_suffix_len(s))
}

/// `s` without leading and trailing white space.
pub open spec fn trim(s: Seq<char>) -> Seq<char> {
    trim_end(trim_start(s))
}

pub proof fn lemma_ws_prefix_len(s: Seq<char>)
    ensures
        ws_prefix_len(s) <= s.len(),
        forall|i: int| 0 <= i < ws_prefix_len(s) ==> is_ws(#[trigger] s[i]),
        ws_prefix_len(s) < s.len() ==> !is_ws(s[ws_prefix_len(s) as int]),
    decreases s.len(),
{
    if s.len() > 0 && is_ws(s[0]) {
        let t = s.subrange(1, s.len() as int);
        lemma_ws_prefix_len(t);
        assert forall|i: int| 0 <= i < ws_prefix_len(s) implies is_ws(#[trigger] s[i]) by {
            if i > 0 {
                assert(s[i] == t[i - 1]);
            }
        }
        if ws_prefix_len(s) < s.len() {
            assert(s[ws_prefix_len(s) as int] == t[ws_prefix_len(t) as int]);
        }
    }
}

pub proof fn lemma_ws_prefix_exact(s: Seq<char>, n: int)
    requires
        0 <= n <= s.len(),
        forall|i: int| 0 <= i < n ==> is_ws(#[trigger] s[i]),
        n < s.len() ==> !is_ws(s[n]),
    ensures
        ws_prefix_len(s) == n,
    decreases s.len(),
{
    if n > 0 {
        let t = s.subrange(1, s.len() as int);
        assert forall|i: int| 0 <= i < n - 1 implies is_ws(#[trigger] t[i]) by {
            assert(t[i] == s[i + 1]);
        }
        if n - 1 < t.len() {
            assert(t[n - 1] == s[n]);
        }
        lemma_ws_prefix_exact(t, n - 1);
    }
}

pub proof fn lemma_ws_suffix_exact(s: Seq<char>, n: int)
    requires
        0 <= n <= s.len(),
        forall|i: int| s.len() - n <= i < s.len() ==> is_ws(#[trigger] s[i]),
        n < s.len() ==> !is_ws(s[s.len() - n - 1]),
    ensures
        ws_suffix_len(s) == n,
    decreases s.len(),
{
    if n > 0 {
        let t = s.subrange(0, s.len() - 1);
        assert forall|i: int| t.len() - (n - 1) <= i < t.len() implies is_ws(#[trigger] t[i]) by {
            assert(t[i] == s[i]);
        }
        if n - 1 < t.len() {
            assert(t[t.len() - (n - 1) - 1] == s[s.len() - n - 1]);
        }
        lemma_ws_suffix_exact(t, n - 1);
    }
}

/// `s` without leading and trailing white space.
pub fn trim_chars(s: &[char]) -> (r: (usize, usize))
    ensures
        r.0 <= r.1 <= s.len(),
        s@.subrange(r.0 as int, r.1 as int) == trim(s@),
{
    let mut a: usize = 0;
    while a < s.len() && is_ws_exec(s[a])
        invariant
            a <= s.len(),
            forall|i: int| 0 <= i < a ==> is_ws(#[trigger] s@[i]),
        decreases s.len() - a,
    {
        a += 1;
    }
    proof {
        lemma_ws_prefix_exact(s@, a as int);
    }
    let mut b: usize = s.len();
    while b > a && is_ws_exec(s[b - 1])
        invariant
            a <= b <= s.len(),
            forall|i: int| b <= i < s.len() ==> is_ws(#[trigger] s@[i]),
        decreases b - a,
    {
        b -= 1;
    }
    proof {
        let t = s@.subrange(a as int, s.len() as int);
        assert(trim_start(s@) == t);
        let n = s.len() - b;
        assert forall|i: int| t.len() - n <= i < t.len() implies is_ws(#[trigger] t[i]) by {
            assert(t[i] == s@[i + a]);
        }
        if n < t.len() {
            assert(t[t.len() - n - 1] == s@[b - 1]);
        }
        lemma_ws_suffix_exact(t, n as int);
        assert(t.subrange(0, t.len() - n) =~= s@.subrange(a as int, b as int));
    }
    (a, b)
}

/// `s` without leading and trailing white space.
pub fn trim_str(s: &str) -> (r: String)
    ensures
        r@ == trim(s@),
{
    let cs = to_chars(s);
    let (a, b) = trim_chars(cs.as_slice());
    let r = from_chars(slice_range(cs.as_slice(), a, b).as_slice());
    r
}

/// The characters of `s` from `a` up to `b`.
pub fn slice_range(s: &[char], a: usize, b: usize) -> (r: Vec<char>)
    requires
        a <= b <= s.len(),
    ensures
        r@ == s@.subrange(a as int, b as int),
{
    let mut r: Vec<char> = Vec::new();
    let mut i = a;
    while i < b
        invariant
            a <= i <= b,
            b <= s.len(),
            r@ == s@.subrange(a as int, i as int),
        decreases b - i,
    {
        r.push(s[i]);
        i += 1;
        assert(r@ =~= s@.subrange(a as int, i as int));
    }
    r
}

/// Whether `t` starts with `p`.
pub open spec fn starts_with(t: Seq<char>, p: Seq<char>) -> bool {
    p.len() <= t.len() && t.subrange(0, p.len() as int) == p
}

/// Whether `t` ends with `p`.
pub open spec fn ends_with(t: Seq<char>, p: Seq<char>) -> bool {
    p.len() <= t.len() && t.subrange(t.len() - p.len(), t.len() as int) == p
}

/// Whether `p` occurs in `t` at position `i`.
pub open spec fn occurs_at(t: Seq<char>, p: Seq<char>, i: int) -> bool {
    0 <= i && i + p.len() <= t.len() && t.subrange(i, i + p.len()) == p
}

/// Whether `p` occurs in `t`.
pub open spec fn contains(t: Seq<char>, p: Seq<char>) -> bool {
    exists|i: int| #[trigger] occurs_at(t, p, i)
}

/// Whether `p` occurs in `t` at `i`.
pub fn matches_at(t: &[char], p: &[char], i: usize) -> (r: bool)
    requires
        i <= t.len(),
    ensures
        r == occurs_at(t@, p@, i as int),
{
    if p.len() > t.len() - i {
        return false;
    }
    let mut j: usize = 0;
    while j < p.len()
        invariant
            j <= p.len(),
            i + p.len() <= t.len(),
            forall|k: int| 0 <= k < j ==> t@[i + k] == p@[k],
        decreases p.len() - j,
    {
        if t[i + j] != p[j] {
            assert(t@.subrange(i as int, i + p.len())[j as int] != p@[j as int]);
            return false;
        }
        j += 1;
    }
    assert(t@.subrange(i as int, i + p.len()) =~= p@);
    true
}

pub fn starts_with_str(t: &str, p: &str) -> (r: bool)
    ensures
        r == starts_with(t@, p@),
{
    let tc = to_chars(t);
    let pc = to_chars(p);
    matches_at(tc.as_slice(), pc.as_slice(), 0)
}

pub fn ends_with_str(t: &str, p: &str) -> (r: bool)
    ensures
        r == ends_with(t@, p@),
{
    let tc = to_chars(t);
    let pc = to_chars(p);
    if pc.len() > tc.len() {
        return false;
    }
    matches_at(tc.as_slice(), pc.as_slice(), tc.len() - pc.len())
}

/// The first position at or after `from` where `p` occurs in `t`.
pub fn find_from(t: &[char], p: &[char], from: usize) -> (r: Option<usize>)
    requires
        from <= t.len(),
    ensures
        match r {
            Some(i) => from <= i <= t.len() && occurs_at(t@, p@, i as int) && forall|k: int|
                from <= k < i ==> !#[trigger] occurs_at(t@, p@, k),
            None => forall|k: int| from <= k ==> !#[trigger] occurs_at(t@, p@, k),
        },
{
    let mut i = from;
    loop
        invariant
            from <= i <= t.len(),
            forall|k: int| from <= k < i ==> !#[trigger] occurs_at(t@, p@, k),
        decreases t.len() - i,
    {
        if matches_at(t, p, i) {
            return Some(i);
        }
        if i == t.len() {
            return None;
        }
        i += 1;
    }
}

pub fn contains_str(t: &str, p: &str) -> (r: bool)
    ensures
        r == contains(t@, p@),
{
    let tc = to_chars(t);
    let pc = to_chars(p);
    match find_from(tc.as_slice(), pc.as_slice(), 0) {
        Some(i) => {
            assert(occurs_at(t@, p@, i as int));
            true
        },
        None => false,
    }
}

/// The ASCII lower-case of a character.
pub open spec fn ascii_lower(c: char) -> char {
    if 'A' <= c <= 'Z' {
        ((c as u32) + 32) as char
    } else {
        c
    }
}

pub open spec fn ascii_lower_seq(s: Seq<char>) -> Seq<char> {
    s.map_values(|c: char| ascii_lower(c))
}

pub fn ascii_lower_char(c: char) -> (r: char)
    ensures
        r == ascii_lower(c),
{
    if 'A' <= c && c <= 'Z' {
        char_from_u32((c as u32) + 32)
    } else {
        c
    }
}

/// The character with code `n` (an ASCII letter here).
fn char_from_u32(n: u32) -> (r: char)
    requires
        0x41 <= n <= 0x7a,
    ensures
        r == n as char,
{
    let b: u8 = n as u8;
    b as char
}

/// `s` with ASCII letters lower-cased.
pub fn to_ascii_lowercase(s: &str) -> (r: String)
    ensures
        r@ == ascii_lower_seq(s@),
{
    let cs = to_chars(s);
    let mut out = String::new();
    let mut i: usize = 0;
    while i < cs.len()
        invariant
            i <= cs.len(),
            cs@ == s@,
            out@ == ascii_lower_seq(s@.subrange(0, i as int)),
        decreases cs.len() - i,
    {
        let c = ascii_lower_char(cs[i]);
        out.push(c);
        i += 1;
        assert(out@ =~= ascii_lower_seq(s@.subrange(0, i as int)));
    }
    assert(s@.subrange(0, cs.len() as int) =~= s@);
    out
}


/// `parts` joined with `sep` between neighbours.
pub open spec fn join(parts: Seq<Seq<char>>, sep: Seq<char>) -> Seq<char>
    decreases parts.len(),
{
    if parts.len() == 0 {
        Seq::empty()
    } else if parts.len() == 1 {
        parts[0]
    } else {
        join(parts.drop_last(), sep) + sep + parts.last()
    }
}

/// `parts` joined with `sep` between neighbours.
pub fn join_strings(parts: &Vec<String>, sep: &str) -> (r: String)
    ensures
        r@ == join(parts@.map_values(|p: String| p@), sep@),
{
    let ghost pv = parts@.map_values(|p: String| p@);
    let mut out = String::new();
    let mut i: usize = 0;
    while i < parts.len()
        invariant
            i <= parts.len(),
            pv == parts@.map_values(|p: String| p@),
            out@ == join(pv.subrange(0, i as int), sep@),
        decreases parts.len() - i,
    {
        proof {
            let pre = pv.subrange(0, i + 1);
            assert(pre.drop_last() =~= pv.subrange(0, i as int));
            assert(pre.last() == parts@[i as int]@);
        }
        if i > 0 {
            out.push_str(sep);
        }
        out.push_str(parts[i].as_str());
        proof {
            if i == 0 {
                assert(out@ =~= pv.subrange(0, 1)[0]);
            }
        }
        i += 1;
    }
    assert(pv.subrange(0, parts.len() as int) =~= pv);
    out
}

/// `s` with every trailing copy of `suf` removed.
pub open spec fn trim_end_matches(s: Seq<char>, suf: Seq<char>) -> Seq<char>
    decreases s.len(),
{
    if suf.len() > 0 && ends_with(s, suf) {
        trim_end_matches(s.subrange(0, s.len() - suf.len()), suf)
    } else {
        s
    }
}

/// `s` with every trailing copy of `suf` removed.
pub fn trim_end_matches_str(s: &str, suf: &str) -> (r: String)
    ensures
        r@ == trim_end_matches(s@, suf@),
{
    let cs = to_chars(s);
    let ps = to_chars(suf);
    let mut end: usize = cs.len();
    proof {
        assert(cs@.subrange(0, cs.len() as int) =~= s@);
    }
    if ps.len() > 0 {
        while end >= ps.len() && matches_at(cs.as_slice(), ps.as_slice(), end - ps.len())
            invariant
                end <= cs.len(),
                ps@ == suf@,
                ps.len() > 0,
                trim_end_matches(cs@.subrange(0, end as int), suf@) == trim_end_matches(s@, suf@),
                cs@ == s@,
            decreases end,
        {
            proof {
                let t = cs@.subrange(0, end as int);
                assert(t.subrange(t.len() - suf@.len(), t.len() as int) =~= cs@.subrange(end - ps.len(), end as int));
                assert(t.subrange(0, t.len() - suf@.len()) =~= cs@.subrange(0, end - ps.len()));
            }
            end = end - ps.len();
        }
        proof {
            let t = cs@.subrange(0, end as int);
            if end >= ps.len() {
                assert(t.subrange(t.len() - suf@.len(), t.len() as int) =~= cs@.subrange(end - ps.len(), end as int));
            }
        }
    }
    proof {
        assert(cs@.subrange(0, cs.len() as int) =~= s@);
    }
    from_chars(slice_range(cs.as_slice(), 0, end).as_slice())
}

/// The Unicode upper-case form of a text, as Rust's `str::to_uppercase` maps it.
pub uninterp spec fn upper_text(s: Seq<char>) -> Seq<char>;

/// Calls `str::to_uppercase`; the result is named by [`upper_text`] and
/// depends on the text alone.
#[verifier::external_body]
pub(crate) fn to_uppercase(s: &str) -> (r: String)
    ensures
        r@ == upper_text(s@),
{
    s.to_uppercase()
}


/// The pieces of `s` between occurrences of `sep` (always at least one).
pub open spec fn split_char(s: Seq<char>, sep: char) -> Seq<Seq<char>>
    decreases s.len(),
{
    if s.len() == 0 {
        seq![Seq::empty()]
    } else {
        let rest = split_char(s.drop_last(), sep);
        if s.last() == sep {
            rest.push(Seq::empty())
        } else {
            rest.update(rest.len() - 1, rest.last().push(s.last()))
        }
    }
}

pub proof fn lemma_split_char_len(s: Seq<char>, sep: char)
    ensures
        split_char(s, sep).len() >= 1,
    decreases s.len(),
{
    if s.len() > 0 {
        lemma_split_char_len(s.drop_last(), sep);
    }
}

/// The pieces of `s` between occurrences of `sep`.
pub fn split_str(s: &str, sep: char) -> (r: Vec<String>)
    ensures
        r@.map_values(|p: String| p@) == split_char(s@, sep),
        r.len() >= 1,
{
    let cs = to_chars(s);
    let mut out: Vec<String> = Vec::new();
    let mut cur: Vec<char> = Vec::new();
    let mut i: usize = 0;
    proof {
        assert(cs@.subrange(0, 0) =~= Seq::<char>::empty());
    }
    while i < cs.len()
        invariant
            i <= cs.len(),
            cs@ == s@,
            out@.map_values(|p: String| p@).push(cur@) == split_char(cs@.subrange(0, i as int), sep),
        decreases cs.len() - i,
    {
        let ghost before = out@.map_values(|p: String| p@).push(cur@);
        proof {
            assert(cs@.subrange(0, i + 1).drop_last() =~= cs@.subrange(0, i as int));
        }
        if cs[i] == sep {
            let piece = from_chars(cur.as_slice());
            out.push(piece);
            cur = Vec::new();
            assert(out@.map_values(|p: String| p@).push(cur@) =~= before.push(Seq::empty()));
        } else {
            cur.push(cs[i]);
            assert(out@.map_values(|p: String| p@).push(cur@) =~= before.update(before.len() - 1, before.last().push(cs@[i as int])));
        }
        i += 1;
    }
    let piece = from_chars(cur.as_slice());
    let ghost prev = out@.map_values(|p: String| p@);
    out.push(piece);
    assert(out@.map_values(|p: String| p@) =~= prev.push(cur@));
    assert(cs@.subrange(0, cs.len() as int) =~= cs@);
    out
}


pub open spec fn is_digit(c: char) -> bool {
    '0' <= c <= '9'
}

pub open spec fn digit_value(c: char) -> int {
    (c as u32) - ('0' as u32)
}

/// The number the decimal digits `d` spell.
pub open spec fn digits_value(d: Seq<char>) -> int
    decreases d.len(),
{
    if d.len() == 0 {
        0
    } else {
        digits_value(d.drop_last()) * 10 + digit_value(d.last())
    }
}

pub open spec fn all_digits(d: Seq<char>) -> bool {
    forall|i: int| 0 <= i < d.len() ==> is_digit(#[trigger] d[i])
}

/// The integer a text spells the way Rust's integer `parse` reads it: an
/// optional `+` or `-`, then one or more decimal digits, nothing else.
pub open spec fn parse_int(s: Seq<char>) -> Option<int> {
    let neg = s.len() > 0 && s[0] == '-';
    let plus = s.len() > 0 && s[0] == '+';
    let d = if neg || plus {
        s.subrange(1, s.len() as int)
    } else {
        s
    };
    if d.len() > 0 && all_digits(d) {
        Some(
            if neg {
                -digits_value(d)
            } else {
                digits_value(d)
            },
        )
    } else {
        None
    }
}

/// The `i64` a text spells (`None` when it is no integer or out of range).
pub open spec fn parse_i64(s: Seq<char>) -> Option<int> {
    match parse_int(s) {
        Some(n) => if i64::MIN <= n <= i64::MAX {
            Some(n)
        } else {
            None
        },
        None => None,
    }
}

pub proof fn lemma_digits_value_nonneg(d: Seq<char>)
    requires
        all_digits(d),
    ensures
        digits_value(d) >= 0,
    decreases d.len(),
{
    if d.len() > 0 {
        lemma_digits_value_nonneg(d.drop_last());
    }
}

/// Reads `s` as an `i64`, the way `str::parse::<i64>` does.
pub fn parse_i64_str(s: &str) -> (r: Option<i64>)
    ensures
        match r {
            Some(n) => parse_i64(s@) == Some(n as int),
            None => parse_i64(s@) is None,
        },
{
    let cs = to_chars(s);
    if cs.len() == 0 {
        return None;
    }
    let neg = cs[0] == '-';
    let plus = cs[0] == '+';
    let start: usize = if neg || plus {
        1
    } else {
        0
    };
    let ghost d = if neg || plus {
        s@.subrange(1, s@.len() as int)
    } else {
        s@
    };
    if start == cs.len() {
        return None;
    }
    let mut acc: i128 = 0;
    let mut big = false;
    let mut i = start;
    while i < cs.len()
        invariant
            start <= i <= cs.len(),
            cs@ == s@,
            s@.len() > 0,
            neg == (s@[0] == '-'),
            plus == (s@[0] == '+'),
            start == (if neg || plus { 1usize } else { 0usize }),
            d == (if neg || plus { s@.subrange(1, s@.len() as int) } else { s@ }),
            d == s@.subrange(start as int, s@.len() as int),
            all_digits(d.subrange(0, i - start)),
            !big ==> acc == digits_value(d.subrange(0, i - start)) && 0 <= acc <= 0x8000_0000_0000_0000i128,
            big ==> digits_value(d.subrange(0, i - start)) > 0x8000_0000_0000_0000i128,
        decreases cs.len() - i,
    {
        let c = cs[i];
        if !('0' <= c && c <= '9') {
            proof {
                assert(d[i - start] == c);
                assert(!is_digit(d[i - start]));
                assert(!all_digits(d));
                let sn = s@.len() > 0 && s@[0] == '-';
                let sp = s@.len() > 0 && s@[0] == '+';
                assert(sn == neg && sp == plus);
                assert(parse_int(s@) is None);
            }
            return None;
        }
        proof {
            let pre = d.subrange(0, i - start + 1);
            assert(pre.drop_last() =~= d.subrange(0, i - start));
            assert(pre.last() == c);
            assert forall|k: int| 0 <= k < pre.len() implies is_digit(#[trigger] pre[k]) by {
                if k < pre.len() - 1 {
                    assert(pre[k] == d.subrange(0, i - start)[k]);
                }
            }
            lemma_digits_value_nonneg(d.subrange(0, i - start));
        }
        let v = (c as u32 - '0' as u32) as i128;
        if !big {
            let next = acc * 10 + v;
            if next > 0x8000_0000_0000_0000i128 {
                big = true;
            } else {
                acc = next;
            }
        }
        i += 1;
    }
    proof {
        assert(d.subrange(0, cs.len() - start) =~= d);
    }
    if big {
        return None;
    }
    if neg {
        Some((-acc) as i64)
    } else if acc <= 0x7fff_ffff_ffff_ffffi128 {
        Some(acc as i64)
    } else {
        None
    }
}

/// The decimal digits of `n` (no sign, no leading zeros, `0` for zero).
pub open spec fn decimal(n: nat) -> Seq<char>
    decreases n,
{
    if n < 10 {
        seq![((n + 48) as u32) as char]
    } else {
        decimal(n / 10).push((((n % 10) + 48) as u32) as char)
    }
}

/// The decimal text of `n`, with a `-` for negatives.
pub open spec fn int_text(n: int) -> Seq<char> {
    if n < 0 {
        seq!['-'] + decimal((-n) as nat)
    } else {
        decimal(n as nat)
    }
}

fn digit_char(d: u128) -> (c: char)
    requires
        d < 10,
    ensures
        c == ((d + 48) as u32) as char,
{
    let b: u8 = (d as u8) + 48;
    b as char
}

/// The decimal digits of `n`.
pub fn decimal_u128(n: u128) -> (r: String)
    ensures
        r@ == decimal(n as nat),
    decreases n,
{
    if n < 10 {
        let mut s = String::new();
        s.push(digit_char(n));
        assert(s@ =~= decimal(n as nat));
        s
    } else {
        let mut s = decimal_u128(n / 10);
        s.push(digit_char(n % 10));
        s
    }
}

/// The decimal text of an `i64`, as `i64::to_string` writes it.
pub fn i64_text(n: i64) -> (r: String)
    ensures
        r@ == int_text(n as int),
{
    if n < 0 {
        let m: u128 = (-(n as i128)) as u128;
        let d = decimal_u128(m);
        let mut s = String::new();
        s.push('-');
        s.push_str(d.as_str());
        assert(s@ =~= seq!['-'] + decimal(m as nat));
        s
    } else {
        decimal_u128(n as u128)
    }
}

/// Whether `s` is one of the texts of `del`.
pub fn in_list(del: &Vec<String>, s: &str) -> (r: bool)
    ensures
        r == del@.map_values(|p: String| p@).contains(s@),
{
    let ghost dv = del@.map_values(|p: String| p@);
    let mut i: usize = 0;
    while i < del.len()
        invariant
            i <= del.len(),
            dv == del@.map_values(|p: String| p@),
            forall|j: int| 0 <= j < i ==> dv[j] != s@,
        decreases del.len() - i,
    {
        if str_eq(del[i].as_str(), s) {
            assert(dv[i as int] == s@);
            return true;
        }
        i += 1;
    }
    false
}

/// `s` without leading white space.
pub fn trim_start_str(s: &str) -> (r: String)
    ensures
        r@ == trim_start(s@),
{
    let cs = to_chars(s);
    let mut a: usize = 0;
    while a < cs.len() && is_ws_exec(cs[a])
        invariant
            a <= cs.len(),
            cs@ == s@,
            forall|i: int| 0 <= i < a ==> is_ws(#[trigger] cs@[i]),
        decreases cs.len() - a,
    {
        a += 1;
    }
    proof {
        lemma_ws_prefix_exact(s@, a as int);
    }
    from_chars(slice_range(cs.as_slice(), a, cs.len()).as_slice())
}

/// A line without the carriage return of a `\r\n` ending.
pub open spec fn strip_cr(l: Seq<char>) -> Seq<char> {
    if l.len() > 0 && l.last() == '\r' {
        l.drop_last()
    } else {
        l
    }
}

/// The lines of a text the way `str::lines` gives them: split at `\n`, a
/// `\r` before the `\n` dropped, and no empty line after a final `\n`.
pub open spec fn lines_v(s: Seq<char>) -> Seq<Seq<char>> {
    let p = split_char(s, '\n');
    let init = p.drop_last().map_values(|l: Seq<char>| strip_cr(l));
    if p.last().len() == 0 {
        init
    } else {
        init.push(p.last())
    }
}

/// The lines of `s` (see [`lines_v`]).
pub fn lines_of(s: &str) -> (r: Vec<String>)
    ensures
        r@.map_values(|x: String| x@) == lines_v(s@),
{
    let parts = split_str(s, '\n');
    let ghost pv = parts@.map_values(|x: String| x@);
    proof {
        lemma_split_char_len(s@, '\n');
    }
    let n = parts.len();
    let mut out: Vec<String> = Vec::new();
    let mut i: usize = 0;
    assert(out@.map_values(|x: String| x@) =~= pv.drop_last().subrange(0, 0).map_values(
        |l: Seq<char>| strip_cr(l),
    ));
    while i + 1 < n
        invariant
            n == parts.len(),
            n >= 1,
            i + 1 <= n,
            pv == parts@.map_values(|x: String| x@),
            pv == split_char(s@, '\n'),
            out@.map_values(|x: String| x@) == pv.drop_last().subrange(0, i as int).map_values(
                |l: Seq<char>| strip_cr(l),
            ),
        decreases n - i,
    {
        let cs = to_chars(parts[i].as_str());
        let line = if cs.len() > 0 && cs[cs.len() - 1] == '\r' {
            from_chars(slice_range(cs.as_slice(), 0, cs.len() - 1).as_slice())
        } else {
            from_chars(cs.as_slice())
        };
        let ghost before = out@;
        assert(pv[i as int] == cs@);
        out.push(line);
        assert(out@.map_values(|x: String| x@) =~= before.map_values(|x: String| x@).push(line@));
        assert(pv.drop_last().subrange(0, i + 1).map_values(|l: Seq<char>| strip_cr(l)) =~= pv.drop_last().subrange(
            0,
            i as int,
        ).map_values(|l: Seq<char>| strip_cr(l)).push(strip_cr(pv[i as int])));
        i += 1;
    }
    assert(pv.drop_last().subrange(0, i as int) =~= pv.drop_last());
    if !parts[n - 1].as_str().is_empty() {
        let ghost before = out@;
        let last = parts[n - 1].clone();
        out.push(last);
        assert(out@.map_values(|x: String| x@) =~= before.map_values(|x: String| x@).push(pv.last()));
    }
    out
}

/// Splitting texts joined with a separator gives the texts back, when none
/// holds the separator.
pub proof fn lemma_split_joined_by(ls: Seq<Seq<char>>, sep: char)
    requires
        ls.len() > 0,
        forall|i: int| 0 <= i < ls.len() ==> !(#[trigger] ls[i]).contains(sep),
    ensures
        split_char(join(ls, seq![sep]), sep) == ls,
    decreases ls.len(),
{
    if ls.len() == 1 {
        lemma_split_char_extend(Seq::empty(), ls[0], sep);
        assert(Seq::<char>::empty() + ls[0] =~= ls[0]);
        assert(split_char(Seq::<char>::empty(), sep) =~= seq![Seq::<char>::empty()]);
        assert(seq![Seq::<char>::empty()].update(0, Seq::<char>::empty() + ls[0]) =~= ls);
    } else {
        let init = ls.drop_last();
        assert forall|i: int| 0 <= i < init.len() implies !(#[trigger] init[i]).contains(sep) by {
            assert(init[i] == ls[i]);
        }
        lemma_split_joined_by(init, sep);
        let x = join(init, seq![sep]) + seq![sep];
        assert(x =~= join(init, seq![sep]).push(sep));
        assert(x.drop_last() =~= join(init, seq![sep]));
        assert(split_char(x, sep) == init.push(Seq::empty()));
        assert(!ls.last().contains(sep)) by {
            assert(ls.last() == ls[ls.len() - 1]);
        }
        lemma_split_char_extend(x, ls.last(), sep);
        assert(Seq::<char>::empty() + ls.last() =~= ls.last());
        assert(init.push(Seq::empty()).update(init.len() as int, Seq::<char>::empty() + ls.last()) =~= ls);
    }
}

/// Splitting lines joined with line breaks gives the lines back.
pub proof fn lemma_split_joined(ls: Seq<Seq<char>>)
    requires
        ls.len() > 0,
        forall|i: int| 0 <= i < ls.len() ==> !(#[trigger] ls[i]).contains('\n'),
    ensures
        split_char(join(ls, "\n"@), '\n') == ls,
    decreases ls.len(),
{
    reveal_strlit("\n");
    if ls.len() == 1 {
        lemma_split_char_extend(Seq::empty(), ls[0], '\n');
        assert(Seq::<char>::empty() + ls[0] =~= ls[0]);
        assert(split_char(Seq::<char>::empty(), '\n') =~= seq![Seq::<char>::empty()]);
        assert(seq![Seq::<char>::empty()].update(0, Seq::<char>::empty() + ls[0]) =~= ls);
    } else {
        let init = ls.drop_last();
        assert forall|i: int| 0 <= i < init.len() implies !(#[trigger] init[i]).contains('\n') by {
            assert(init[i] == ls[i]);
        }
        lemma_split_joined(init);
        let x = join(init, "\n"@) + "\n"@;
        assert(x =~= join(init, "\n"@).push('\n'));
        assert(x.drop_last() =~= join(init, "\n"@));
        assert(split_char(x, '\n') == init.push(Seq::empty()));
        assert(!ls.last().contains('\n')) by {
            assert(ls.last() == ls[ls.len() - 1]);
        }
        lemma_split_char_extend(x, ls.last(), '\n');
        assert(Seq::<char>::empty() + ls.last() =~= ls.last());
        assert(init.push(Seq::empty()).update(init.len() as int, Seq::<char>::empty() + ls.last()) =~= ls);
    }
}

/// The lines of a text written line by line, each followed by a line break,
/// are the lines written, each without a closing carriage return, when none
/// holds a line break.
pub proof fn lemma_lines_of_written(ls: Seq<Seq<char>>)
    requires
        ls.len() > 0,
        forall|i: int| 0 <= i < ls.len() ==> !(#[trigger] ls[i]).contains('\n'),
    ensures
        lines_v(join(ls, "\n"@).push('\n')) == ls.map_values(|l: Seq<char>| strip_cr(l)),
{
    lemma_split_joined(ls);
    let t = join(ls, "\n"@).push('\n');
    assert(t.drop_last() =~= join(ls, "\n"@));
    assert(split_char(t, '\n') == ls.push(Seq::empty()));
    assert(ls.push(Seq::<char>::empty()).drop_last() =~= ls);
}

/// Appending text without the separator extends the last piece.
pub proof fn lemma_split_char_extend(s: Seq<char>, t: Seq<char>, sep: char)
    requires
        !t.contains(sep),
    ensures
        split_char(s + t, sep) == split_char(s, sep).update(
            split_char(s, sep).len() - 1,
            split_char(s, sep).last() + t,
        ),
    decreases t.len(),
{
    lemma_split_char_len(s, sep);
    if t.len() == 0 {
        assert(s + t =~= s);
        assert(split_char(s, sep).last() + t =~= split_char(s, sep).last());
        assert(split_char(s, sep).update(split_char(s, sep).len() - 1, split_char(s, sep).last())
            =~= split_char(s, sep));
    } else {
        let t0 = t.drop_last();
        assert(!t0.contains(sep)) by {
            if t0.contains(sep) {
                let j = choose|j: int| 0 <= j < t0.len() && t0[j] == sep;
                assert(t[j] == sep);
            }
        }
        assert(t.last() != sep) by {
            assert(t[t.len() - 1] == t.last());
        }
        lemma_split_char_extend(s, t0, sep);
        assert((s + t).drop_last() =~= s + t0);
        assert((s + t).last() == t.last());
        lemma_split_char_len(s + t0, sep);
        let r = split_char(s, sep);
        let rest = split_char(s + t0, sep);
        assert(rest == r.update(r.len() - 1, r.last() + t0));
        assert(rest.len() == r.len());
        assert(rest.last() == r.last() + t0);
        assert(t0.push(t.last()) =~= t);
        assert((r.last() + t0).push(t.last()) =~= r.last() + t);
        assert(split_char(s + t, sep) == rest.update(rest.len() - 1, rest.last().push((s + t).last())));
        assert(split_char(s + t, sep) =~= r.update(r.len() - 1, r.last() + t));
    }
}

/// `a<sep>b` splits into `a` and `b` when neither holds the separator.
pub proof fn lemma_split_char_two(a: Seq<char>, b: Seq<char>, sep: char)
    requires
        !a.contains(sep),
        !b.contains(sep),
    ensures
        split_char(a + seq![sep] + b, sep) == seq![a, b],
{
    lemma_split_char_extend(Seq::empty(), a, sep);
    assert(Seq::<char>::empty() + a =~= a);
    assert(split_char(Seq::<char>::empty(), sep) =~= seq![Seq::<char>::empty()]);
    assert(split_char(a, sep) =~= seq![a]) by {
        assert(seq![Seq::<char>::empty()].update(0, Seq::<char>::empty() + a) =~= seq![a]);
    }
    let ap = a + seq![sep];
    assert(ap.drop_last() =~= a);
    assert(split_char(ap, sep) =~= seq![a, Seq::<char>::empty()]);
    lemma_split_char_extend(ap, b, sep);
    assert(Seq::<char>::empty() + b =~= b);
    assert(split_char(ap + b, sep) =~= seq![a, b]);
}

} // verus!
