use vstd::prelude::*;

verus! {

/// RGB pixels widened to RGBA with full opacity.
pub open spec fn rgba_of_rgb(s: Seq<u8>) -> Seq<u8> {
    Seq::new(s.len() / 3 * 4, |i: int| if i % 4 == 3 { 255u8 } else { s[i / 4 * 3 + i % 4] })
}

/// Widens packed RGB pixels to RGBA, opaque.
pub fn rgb_to_rgba(buf: &Vec<u8>) -> (r: Vec<u8>)
    requires
        buf@.len() % 3 == 0,
    ensures
        r@ == rgba_of_rgb(buf@),
{
    let n = buf.len() / 3;
    let mut out: Vec<u8> = Vec::new();
    let mut k: usize = 0;
    while k < n
        invariant
            n == buf@.len() / 3,
            buf@.len() % 3 == 0,
            k <= n,
            out@.len() == k * 4,
            forall|i: int| 0 <= i < k * 4 ==> out@[i] == rgba_of_rgb(buf@)[i],
        decreases n - k,
    {
        assert(k * 3 + 2 < buf.len()) by (nonlinear_arith)
            requires
                k < n,
                n == buf@.len() / 3,
                buf@.len() % 3 == 0,
        ;
        let b = k * 3;
        out.push(buf[b]);
        out.push(buf[b + 1]);
        out.push(buf[b + 2]);
        out.push(255);
        proof {
            assert forall|i: int| k * 4 <= i < k * 4 + 4 implies out@[i] == rgba_of_rgb(buf@)[i] by {
                assert(i / 4 == k) by (nonlinear_arith)
                    requires
                        k * 4 <= i < k * 4 + 4,
                ;
                assert(i % 4 == i - k * 4) by (nonlinear_arith)
                    requires
                        k * 4 <= i < k * 4 + 4,
                ;
                assert(k * 4 + 4 <= n * 4) by (nonlinear_arith)
                    requires
                        k < n,
                ;
            }
        }
        k += 1;
    }
    assert(out@ =~= rgba_of_rgb(buf@));
    out
}

/// RGBA pixels reordered to ARGB (the tray's pixmap layout).
pub open spec fn argb_of_rgba(s: Seq<u8>) -> Seq<u8> {
    Seq::new(s.len(), |i: int| if i % 4 == 0 { s[i + 3] } else { s[i - 1] })
}

/// Reorders packed RGBA pixels to ARGB.
pub fn rgba_to_argb(buf: &Vec<u8>) -> (r: Vec<u8>)
    requires
        buf@.len() % 4 == 0,
    ensures
        r@ == argb_of_rgba(buf@),
{
    let n = buf.len() / 4;
    let mut out: Vec<u8> = Vec::new();
    let mut k: usize = 0;
    while k < n
        invariant
            n == buf@.len() / 4,
            buf@.len() % 4 == 0,
            k <= n,
            out@.len() == k * 4,
            forall|i: int| 0 <= i < k * 4 ==> out@[i] == argb_of_rgba(buf@)[i],
        decreases n - k,
    {
        assert(k * 4 + 3 < buf.len()) by (nonlinear_arith)
            requires
                k < n,
                n == buf@.len() / 4,
                buf@.len() % 4 == 0,
        ;
        let b = k * 4;
        out.push(buf[b + 3]);
        out.push(buf[b]);
        out.push(buf[b + 1]);
        out.push(buf[b + 2]);
        proof {
            assert forall|i: int| k * 4 <= i < k * 4 + 4 implies out@[i] == argb_of_rgba(buf@)[i] by {
                assert(i % 4 == i - k * 4) by (nonlinear_arith)
                    requires
                        k * 4 <= i < k * 4 + 4,
                ;
            }
        }
        k += 1;
    }
    assert(out@ =~= argb_of_rgba(buf@));
    out
}

/// Whether every whole pixel of a BGRA buffer has a zero alpha byte.
pub open spec fn all_transparent(s: Seq<u8>) -> bool {
    forall|k: int| 0 <= k < s.len() / 4 ==> #[trigger] s[k * 4 + 3] == 0
}

/// The buffer with every whole pixel made opaque when all were transparent
/// (icons that leave alpha zeroed); otherwise unchanged.
pub open spec fn opaque_fix(s: Seq<u8>) -> Seq<u8> {
    if all_transparent(s) {
        Seq::new(s.len(), |i: int| if i % 4 == 3 && i < s.len() / 4 * 4 { 255u8 } else { s[i] })
    } else {
        s
    }
}

/// Makes a fully transparent icon bitmap opaque.
pub fn fix_transparent(buf: Vec<u8>) -> (r: Vec<u8>)
    ensures
        r@ == opaque_fix(buf@),
{
    let n = buf.len() / 4;
    let mut k: usize = 0;
    let mut zero = true;
    while k < n
        invariant
            n == buf@.len() / 4,
            k <= n,
            zero == (forall|j: int| 0 <= j < k ==> #[trigger] buf@[j * 4 + 3] == 0),
        decreases n - k,
    {
        assert(k * 4 + 3 < buf.len()) by (nonlinear_arith)
            requires
                k < n,
                n == buf@.len() / 4,
        ;
        if buf[k * 4 + 3] != 0 {
            zero = false;
        }
        k += 1;
    }
    if !zero {
        return buf;
    }
    let ghost orig = buf@;
    let mut out = buf;
    let mut k: usize = 0;
    while k < n
        invariant
            n == orig.len() / 4,
            k <= n,
            out@.len() == orig.len(),
            forall|i: int|
                0 <= i < orig.len() ==> #[trigger] out@[i] == (if i % 4 == 3 && i < k * 4 {
                    255u8
                } else {
                    orig[i]
                }),
        decreases n - k,
    {
        assert(k * 4 + 3 < out.len()) by (nonlinear_arith)
            requires
                k < n,
                n == orig.len() / 4,
                out@.len() == orig.len(),
        ;
        out.set(k * 4 + 3, 255);
        proof {
            assert forall|i: int| 0 <= i < orig.len() implies #[trigger] out@[i] == (if i % 4 == 3 && i < (k + 1) * 4 {
                255u8
            } else {
                orig[i]
            }) by {
                if i == k * 4 + 3 {
                    assert(i % 4 == 3) by (nonlinear_arith)
                        requires
                            i == k * 4 + 3,
                    ;
                } else if i % 4 == 3 && k * 4 <= i < (k + 1) * 4 {
                    assert(i == k * 4 + 3) by (nonlinear_arith)
                        requires
                            i % 4 == 3,
                            k * 4 <= i < (k + 1) * 4,
                    ;
                }
            }
        }
        k += 1;
    }
    assert(out@ =~= opaque_fix(orig));
    out
}

} // verus!
