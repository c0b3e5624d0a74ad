use vstd::prelude::*;

use crate::core_control::nonblank;
use crate::text::{cat, own, split_char, split_str, trim_str};

verus! {

/// Where the core's connection snapshots are polled.
pub fn connections_url(controller: &str) -> (r: String)
    ensures
        r@ == controller@ + "/connections"@,
{
    cat(controller, "/connections")
}

/// Where the core's log stream is read (info level and up).
pub fn logs_url(controller: &str) -> (r: String)
    ensures
        r@ == controller@ + "/logs?level=info"@,
{
    cat(controller, "/logs?level=info")
}

/// The complete lines a log stream's buffered text holds (trimmed, blank ones
/// dropped) and the unfinished rest after the last line break.
pub fn split_log_buffer(buffer: &str) -> (r: (Vec<String>, String))
    ensures
        r.0@.map_values(|x: String| x@) == nonblank(split_char(buffer@, '\n').drop_last()),
        r.1@ == split_char(buffer@, '\n').last(),
{
    let parts = split_str(buffer, '\n');
    let ghost pv = parts@.map_values(|x: String| x@);
    proof {
        crate::text::lemma_split_char_len(buffer@, '\n');
    }
    let n = parts.len();
    let mut out: Vec<String> = Vec::new();
    let mut i: usize = 0;
    assert(pv.drop_last().subrange(0, 0) =~= Seq::<Seq<char>>::empty());
    assert(out@.map_values(|x: String| x@) =~= Seq::<Seq<char>>::empty());
    while i + 1 < n
        invariant
            n == parts.len(),
            n >= 1,
            i + 1 <= n,
            pv == parts@.map_values(|x: String| x@),
            pv == split_char(buffer@, '\n'),
            out@.map_values(|x: String| x@) == nonblank(pv.drop_last().subrange(0, i as int)),
        decreases n - i,
    {
        assert(pv.drop_last().subrange(0, i + 1).drop_last() =~= pv.drop_last().subrange(0, i as int));
        assert(pv.drop_last()[i as int] == parts@[i as int]@);
        let t = trim_str(parts[i].as_str());
        if !t.as_str().is_empty() {
            let ghost before = out@;
            out.push(t);
            assert(out@.map_values(|x: String| x@) =~= before.map_values(|x: String| x@).push(t@));
        }
        i += 1;
    }
    assert(pv.drop_last().subrange(0, i as int) =~= pv.drop_last());
    let rest = parts[n - 1].clone();
    (out, rest)
}

/// The last piece of a split holds no separator and is what follows the last
/// separator of the text (the whole text when it has none).
proof fn lemma_split_char_last(s: Seq<char>, sep: char)
    ensures
        ({
            let l = split_char(s, sep).last();
            &&& !l.contains(sep)
            &&& l.len() <= s.len()
            &&& s.subrange(s.len() - l.len(), s.len() as int) == l
            &&& l.len() < s.len() ==> s[s.len() - l.len() - 1] == sep
        }),
    decreases s.len(),
{
    crate::text::lemma_split_char_len(s, sep);
    if s.len() > 0 {
        let s1 = s.drop_last();
        lemma_split_char_last(s1, sep);
        crate::text::lemma_split_char_len(s1, sep);
        let r = split_char(s1, sep);
        let l1 = r.last();
        if s.last() == sep {
            assert(split_char(s, sep).last() == Seq::<char>::empty());
            assert(s.subrange(s.len() as int, s.len() as int) =~= Seq::<char>::empty());
            assert(s[s.len() - 1] == sep);
        } else {
            let l = l1.push(s.last());
            assert(split_char(s, sep).last() == l);
            assert(s.subrange(s.len() - l.len(), s.len() as int) =~= s1.subrange(s1.len() - l1.len(), s1.len() as int).push(
                s.last(),
            ));
            assert forall|i: int| 0 <= i < l.len() implies l[i] != sep by {
                if i < l1.len() {
                    assert(l[i] == l1[i]);
                }
            }
            if l.len() < s.len() {
                assert(s[s.len() - l.len() - 1] == s1[s1.len() - l1.len() - 1]);
            }
        }
    }
}

/// Law: what a log buffer keeps back is exactly the text after its last line
/// break (all of it when there is none): it holds no line break, the buffer
/// ends with it, and a line break comes right before it.
pub proof fn law_log_buffer_keeps_unfinished_line(buffer: Seq<char>)
    ensures
        ({
            let rest = split_char(buffer, '\n').last();
            &&& !rest.contains('\n')
            &&& rest.len() <= buffer.len()
            &&& buffer.subrange(buffer.len() - rest.len(), buffer.len() as int) == rest
            &&& rest.len() < buffer.len() ==> buffer[buffer.len() - rest.len() - 1] == '\n'
        }),
{
    lemma_split_char_last(buffer, '\n');
}

} // verus!
