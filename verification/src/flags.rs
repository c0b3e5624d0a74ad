use vstd::prelude::*;

use crate::text::{ascii_lower, ascii_lower_char, in_list, split_char, split_str};

verus! {

/// The two-letter codes a flag image is shipped for (ISO 3166-1 alpha-2 and
/// a few exceptional reservations), comma separated.
pub const SHIPPED_FLAG_CODES: &'static str = "ad,ae,af,ag,ai,al,am,ao,aq,ar,as,at,au,aw,ax,az,ba,bb,bd,be,bf,bg,bh,bi,bj,bl,bm,bn,\
    bo,bq,br,bs,bt,bv,bw,by,bz,ca,cc,cd,cf,cg,ch,ci,ck,cl,cm,cn,co,cp,cr,cu,cv,cw,cx,cy,\
    cz,de,dg,dj,dk,dm,do,dz,ec,ee,eg,eh,er,es,et,eu,fi,fj,fk,fm,fo,fr,ga,gb,gd,ge,gf,gg,\
    gh,gi,gl,gm,gn,gp,gq,gr,gs,gt,gu,gw,gy,hk,hm,hn,hr,ht,hu,ic,id,ie,il,im,in,io,iq,ir,\
    is,it,je,jm,jo,jp,ke,kg,kh,ki,km,kn,kp,kr,kw,ky,kz,la,lb,lc,li,lk,lr,ls,lt,lu,lv,ly,\
    ma,mc,md,me,mf,mg,mh,mk,ml,mm,mn,mo,mp,mq,mr,ms,mt,mu,mv,mw,mx,my,mz,na,nc,ne,nf,ng,\
    ni,nl,no,np,nr,nu,nz,om,pa,pc,pe,pf,pg,ph,pk,pl,pm,pn,pr,ps,pt,pw,py,qa,re,ro,rs,ru,\
    rw,sa,sb,sc,sd,se,sg,sh,si,sj,sk,sl,sm,sn,so,sr,ss,st,sv,sx,sy,sz,tc,td,tf,tg,th,tj,\
    tk,tl,tm,tn,to,tr,tt,tv,tw,tz,ua,ug,um,un,us,uy,uz,va,vc,ve,vg,vi,vn,vu,wf,ws,xk,xx,\
    ye,yt,za,zm,zw";

/// Whether the text is an emoji the `emojis` table knows.
pub uninterp spec fn is_known_emoji(s: Seq<char>) -> bool;

/// Looks the text up in the `emojis` crate's table (`emojis::get`).
#[verifier::external_body]
fn known_emoji(s: &str) -> (r: bool)
    ensures
        r == is_known_emoji(s@),
{
    emojis::get(s).is_some()
}

/// The ASCII letter of a regional-indicator symbol (U+1F1E6 to U+1F1FF).
pub open spec fn regional_v(c: char) -> Option<char> {
    if 0x1F1E6 <= (c as u32) <= 0x1F1FF {
        Some((65 + ((c as u32) - 0x1F1E6)) as char)
    } else {
        None
    }
}

/// Maps a regional-indicator symbol to its ASCII letter, e.g. 🇸 → `S`.
pub fn regional_letter(c: char) -> (r: Option<char>)
    ensures
        r == regional_v(c),
{
    let cp = c as u32;
    if 0x1F1E6 <= cp && cp <= 0x1F1FF {
        let b: u8 = (65 + (cp - 0x1F1E6)) as u8;
        Some(b as char)
    } else {
        None
    }
}

/// The byte a letter compares as: its ASCII lowercase, cut to eight bits.
pub open spec fn code_char(c: char) -> char {
    (((ascii_lower(c) as u32) % 256) as u8) as char
}

/// The image code for a flag's two letters: lowercased, when shipped; else
/// empty.
pub open spec fn iso_code_v(a: char, b: char) -> Seq<char> {
    let code = seq![code_char(a), code_char(b)];
    if split_char(SHIPPED_FLAG_CODES@, ',').contains(code) {
        code
    } else {
        Seq::empty()
    }
}

/// The image code for a flag's two letters (`se`, `us`, ...), or empty when
/// no image is shipped for it.
pub fn iso_to_code(a: char, b: char) -> (r: String)
    ensures
        r@ == iso_code_v(a, b),
{
    let la: u8 = ((ascii_lower_char(a) as u32) % 256) as u8;
    let lb: u8 = ((ascii_lower_char(b) as u32) % 256) as u8;
    let mut code = String::new();
    code.push(la as char);
    code.push(lb as char);
    assert(code@ =~= seq![code_char(a), code_char(b)]);
    let list = split_str(SHIPPED_FLAG_CODES, ',');
    if in_list(&list, code.as_str()) {
        code
    } else {
        String::new()
    }
}

/// A piece of a display name: text, or a flag (its image code).
pub enum Seg {
    Text(String),
    Flag(String),
}

pub enum SegV {
    Text(Seq<char>),
    Flag(Seq<char>),
}

pub open spec fn seg_view(s: Seg) -> SegV {
    match s {
        Seg::Text(t) => SegV::Text(t@),
        Seg::Flag(c) => SegV::Flag(c@),
    }
}

pub open spec fn segs_view(v: Seq<Seg>) -> Seq<SegV> {
    v.map_values(|s: Seg| seg_view(s))
}

/// Whether the two symbols at the front form a known flag emoji.
pub open spec fn flag_at(cs: Seq<char>) -> bool {
    &&& cs.len() >= 2
    &&& regional_v(cs[0]) is Some
    &&& regional_v(cs[1]) is Some
    &&& is_known_emoji(seq![cs[0], cs[1]])
}

pub open spec fn flush(buf: Seq<char>) -> Seq<SegV> {
    if buf.len() > 0 {
        seq![SegV::Text(buf)]
    } else {
        Seq::empty()
    }
}

/// The pieces of `cs` with `buf` the text gathered before it: each pair of
/// regional-indicator symbols that forms a known emoji becomes a flag, the
/// text between flags one piece.
pub open spec fn scan(cs: Seq<char>, buf: Seq<char>) -> Seq<SegV>
    decreases cs.len(),
{
    if cs.len() == 0 {
        flush(buf)
    } else if flag_at(cs) {
        flush(buf) + seq![
            SegV::Flag(iso_code_v(regional_v(cs[0])->0, regional_v(cs[1])->0)),
        ] + scan(cs.subrange(2, cs.len() as int), Seq::empty())
    } else {
        scan(cs.drop_first(), buf.push(cs[0]))
    }
}

/// Whether the symbols at `i` and `i + 1` are both regional indicators.
pub open spec fn regional_pair(cs: Seq<char>, i: int) -> bool {
    &&& 0 <= i
    &&& i + 1 < cs.len()
    &&& regional_v(cs[i]) is Some
    &&& regional_v(cs[i + 1]) is Some
}

/// Whether the pair at `i` is a flag, by `known[i]` (what the emoji table
/// says of that pair).
pub open spec fn flag_with(cs: Seq<char>, known: Seq<bool>, i: int) -> bool {
    regional_pair(cs, i) && i < known.len() && known[i]
}

/// The pieces of `cs` from `i` on, `buf` the text gathered before, with the
/// emoji table's answers given as `known` (see [`scan`]).
pub open spec fn scan_with(cs: Seq<char>, known: Seq<bool>, i: int, buf: Seq<char>) -> Seq<SegV>
    decreases cs.len() - i,
{
    if i < 0 || i >= cs.len() {
        flush(buf)
    } else if flag_with(cs, known, i) {
        flush(buf) + seq![
            SegV::Flag(iso_code_v(regional_v(cs[i])->0, regional_v(cs[i + 1])->0)),
        ] + scan_with(cs, known, i + 2, Seq::empty())
    } else {
        scan_with(cs, known, i + 1, buf.push(cs[i]))
    }
}

/// `known` holds the emoji table's answer for every regional pair of `cs`.
pub open spec fn answers_table(cs: Seq<char>, known: Seq<bool>) -> bool {
    forall|i: int| #[trigger] regional_pair(cs, i) ==> i < known.len() && known[i] == is_known_emoji(seq![cs[i], cs[i + 1]])
}

proof fn lemma_scan_with(cs: Seq<char>, known: Seq<bool>, i: int, buf: Seq<char>)
    requires
        0 <= i <= cs.len(),
        answers_table(cs, known),
    ensures
        scan_with(cs, known, i, buf) == scan(cs.subrange(i, cs.len() as int), buf),
    decreases cs.len() - i,
{
    let rest = cs.subrange(i, cs.len() as int);
    if i < cs.len() {
        assert(rest[0] == cs[i]);
        if rest.len() >= 2 {
            assert(rest[1] == cs[i + 1]);
        }
        if regional_pair(cs, i) {
            assert(seq![rest[0], rest[1]] == seq![cs[i], cs[i + 1]]);
        }
        assert(flag_with(cs, known, i) == flag_at(rest));
        if flag_with(cs, known, i) {
            lemma_scan_with(cs, known, i + 2, Seq::empty());
            assert(rest.subrange(2, rest.len() as int) =~= cs.subrange(i + 2, cs.len() as int));
        } else {
            lemma_scan_with(cs, known, i + 1, buf.push(cs[i]));
            assert(rest.drop_first() =~= cs.subrange(i + 1, cs.len() as int));
        }
    }
}

/// Splits a display name into text and flag pieces, given the emoji table's
/// answer `known[i]` for the pair of symbols at each position `i` (see
/// [`scan_with`]).
pub fn segments_with(name: &str, known: &Vec<bool>) -> (r: Vec<Seg>)
    ensures
        segs_view(r@) == scan_with(name@, known@, 0, Seq::empty()),
{
    let mut chars: Vec<char> = Vec::new();
    for c in it: name.chars()
        invariant
            chars@ == it.seq().take(it.index() as int),
            it.seq() == name@,
    {
        chars.push(c);
    }
    let ghost cs = name@;
    assert(chars@ =~= cs);
    let n = chars.len();
    let mut out: Vec<Seg> = Vec::new();
    let mut buf = String::new();
    let mut i: usize = 0;
    assert(segs_view(out@) =~= Seq::<SegV>::empty());
    while i < n
        invariant
            n == chars.len(),
            chars@ == cs,
            i <= n,
            segs_view(out@) + scan_with(cs, known@, i as int, buf@) == scan_with(cs, known@, 0, Seq::empty()),
        decreases n - i,
    {
        let ghost before = out@;
        let ghost buf0 = buf@;
        let a = regional_letter(chars[i]);
        let b = if i + 1 < n {
            regional_letter(chars[i + 1])
        } else {
            None
        };
        let is_flag = a.is_some() && b.is_some() && i < known.len() && known[i];
        assert(is_flag == flag_with(cs, known@, i as int));
        if is_flag {
            let code = iso_to_code(a.unwrap(), b.unwrap());
            let ghost fb = flush(buf@);
            if !buf.as_str().is_empty() {
                out.push(Seg::Text(buf));
                assert(segs_view(out@) =~= segs_view(before) + fb);
            } else {
                assert(segs_view(out@) =~= segs_view(before) + fb);
            }
            buf = String::new();
            let ghost mid = out@;
            out.push(Seg::Flag(code));
            assert(segs_view(out@) =~= segs_view(mid).push(SegV::Flag(code@)));
            assert(segs_view(out@) + scan_with(cs, known@, i + 2, buf@) =~= segs_view(before) + scan_with(
                cs,
                known@,
                i as int,
                buf0,
            ));
            i += 2;
        } else {
            buf.push(chars[i]);
            i += 1;
        }
    }
    if !buf.as_str().is_empty() {
        let ghost before = out@;
        out.push(Seg::Text(buf));
        assert(segs_view(out@) =~= segs_view(before).push(SegV::Text(buf@)));
    } else {
        assert(segs_view(out@) + flush(buf@) =~= segs_view(out@));
    }
    out
}

/// Splits a display name into text and flag pieces.
pub fn segments(name: &str) -> (r: Vec<Seg>)
    ensures
        segs_view(r@) == scan(name@, Seq::empty()),
{
    let mut chars: Vec<char> = Vec::new();
    for c in it: name.chars()
        invariant
            chars@ == it.seq().take(it.index() as int),
            it.seq() == name@,
    {
        chars.push(c);
    }
    let ghost cs = name@;
    assert(chars@ =~= cs);
    let n = chars.len();
    let mut known: Vec<bool> = Vec::new();
    let mut i: usize = 0;
    while i < n
        invariant
            n == chars.len(),
            chars@ == cs,
            i <= n,
            known@.len() == i,
            forall|j: int| 0 <= j < i && #[trigger] regional_pair(cs, j) ==> known@[j] == is_known_emoji(
                seq![cs[j], cs[j + 1]],
            ),
        decreases n - i,
    {
        let pair = i + 1 < n && regional_letter(chars[i]).is_some() && regional_letter(chars[i + 1]).is_some();
        let k = if pair {
            let mut flag = String::new();
            flag.push(chars[i]);
            flag.push(chars[i + 1]);
            assert(flag@ =~= seq![cs[i as int], cs[i + 1]]);
            known_emoji(flag.as_str())
        } else {
            false
        };
        assert(pair == regional_pair(cs, i as int));
        known.push(k);
        i += 1;
    }
    proof {
        assert forall|j: int| #[trigger] regional_pair(cs, j) implies j < known@.len() && known@[j] == is_known_emoji(
            seq![cs[j], cs[j + 1]],
        ) by {}
        lemma_scan_with(cs, known@, 0, Seq::empty());
        assert(cs.subrange(0, cs.len() as int) =~= cs);
    }
    segments_with(name, &known)
}

/// Whether the name holds at least one flag an image is shipped for.
pub open spec fn has_flag_v(name: Seq<char>) -> bool {
    exists|j: int| 0 <= j < scan(name, Seq::empty()).len() && shown_flag(#[trigger] scan(name, Seq::empty())[j])
}

/// Whether no text piece is empty and no two text pieces come in a row.
pub open spec fn pieces_well_cut(v: Seq<SegV>) -> bool {
    &&& forall|j: int| 0 <= j < v.len() ==> (#[trigger] v[j] matches SegV::Text(t) ==> t.len() > 0)
    &&& forall|j: int| 0 <= j < v.len() - 1 ==> !(#[trigger] v[j] is Text && v[j + 1] is Text)
}

proof fn lemma_scan_well_cut(cs: Seq<char>, buf: Seq<char>)
    ensures
        pieces_well_cut(scan(cs, buf)),
    decreases cs.len(),
{
    if cs.len() == 0 {
    } else if flag_at(cs) {
        let rest = cs.subrange(2, cs.len() as int);
        lemma_scan_well_cut(rest, Seq::empty());
        let f = flush(buf);
        let fl = seq![SegV::Flag(iso_code_v(regional_v(cs[0])->0, regional_v(cs[1])->0))];
        let tail = scan(rest, Seq::empty());
        let v = f + fl + tail;
        assert(scan(cs, buf) == v);
        assert forall|j: int| 0 <= j < v.len() implies (#[trigger] v[j] matches SegV::Text(t) ==> t.len() > 0) by {
            if j >= f.len() + 1 {
                assert(v[j] == tail[j - f.len() - 1]);
            }
        }
        assert forall|j: int| 0 <= j < v.len() - 1 implies !(#[trigger] v[j] is Text && v[j + 1] is Text) by {
            if j >= f.len() + 1 {
                assert(v[j] == tail[j - f.len() - 1]);
                assert(v[j + 1] == tail[j + 1 - f.len() - 1]);
            } else if j == f.len() {
                assert(v[j] == fl[0]);
            } else {
                assert(v[j + 1] == fl[0]);
            }
        }
    } else {
        lemma_scan_well_cut(cs.drop_first(), buf.push(cs[0]));
    }
}

proof fn lemma_scan_plain(cs: Seq<char>, buf: Seq<char>)
    requires
        forall|i: int| 0 <= i < cs.len() ==> regional_v(#[trigger] cs[i]) is None,
    ensures
        scan(cs, buf) == flush(buf + cs),
    decreases cs.len(),
{
    if cs.len() == 0 {
        assert(buf + cs =~= buf);
    } else {
        assert(regional_v(cs[0]) is None);
        let t = cs.drop_first();
        assert forall|i: int| 0 <= i < t.len() implies regional_v(#[trigger] t[i]) is None by {
            assert(t[i] == cs[i + 1]);
        }
        lemma_scan_plain(t, buf.push(cs[0]));
        assert(buf.push(cs[0]) + t =~= buf + cs);
    }
}

/// Law: a display name splits into pieces of which no text piece is empty
/// and no two text pieces come in a row; a name without any
/// regional-indicator symbol is a single text piece holding all of it (no
/// piece at all when it is empty).
pub proof fn law_name_pieces(name: Seq<char>)
    ensures
        pieces_well_cut(scan(name, Seq::empty())),
        (forall|i: int| 0 <= i < name.len() ==> regional_v(#[trigger] name[i]) is None) ==> scan(name, Seq::empty())
            == (if name.len() > 0 {
            seq![SegV::Text(name)]
        } else {
            Seq::empty()
        }),
{
    lemma_scan_well_cut(name, Seq::empty());
    if forall|i: int| 0 <= i < name.len() ==> regional_v(#[trigger] name[i]) is None {
        lemma_scan_plain(name, Seq::empty());
        assert(Seq::<char>::empty() + name =~= name);
    }
}

/// A flag piece with an image to show.
pub open spec fn shown_flag(s: SegV) -> bool {
    match s {
        SegV::Flag(c) => c.len() > 0,
        _ => false,
    }
}

/// Whether `name` contains at least one renderable flag.
pub fn has_flag(name: &str) -> (r: bool)
    ensures
        r == has_flag_v(name@),
{
    let segs = segments(name);
    let ghost sv = segs_view(segs@);
    let mut i: usize = 0;
    while i < segs.len()
        invariant
            i <= segs.len(),
            sv == segs_view(segs@),
            sv == scan(name@, Seq::empty()),
            forall|j: int| 0 <= j < i ==> !shown_flag(#[trigger] sv[j]),
        decreases segs.len() - i,
    {
        match &segs[i] {
            Seg::Flag(c) => {
                if !c.as_str().is_empty() {
                    assert(shown_flag(sv[i as int]));
                    return true;
                }
            },
            Seg::Text(_) => {},
        }
        i += 1;
    }
    false
}

} // verus!
