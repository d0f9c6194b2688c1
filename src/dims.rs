use vstd::prelude::*;

verus! {

/// Length that the longer side of a resized image gets.
pub const TARGET_SIDE: u32 = 1000;

/// The size an image of `w` x `h` pixels is scaled to: `None` where both sides
/// are already below the target side (the image is left alone), else the longer
/// side becomes the target side and the shorter one is scaled by the same
/// factor, rounded toward zero. A square image counts as upright.
pub open spec fn target_size(w: nat, h: nat) -> Option<(nat, nat)> {
    if w < TARGET_SIDE && h < TARGET_SIDE {
        None
    } else if w > h {
        Some((TARGET_SIDE as nat, (1000 * h / w) as nat))
    } else {
        Some(((1000 * w / h) as nat, TARGET_SIDE as nat))
    }
}

/// Computes `target_size` for a decoded image. Both sides of the result are at
/// most the target side, and the scaled side `s'` of a longer side `l` and a
/// shorter side `s` satisfies `s' * l <= 1000 * s < (s' + 1) * l`: the aspect
/// ratio is kept up to the rounding of one pixel.
pub fn target_dimensions(w: u32, h: u32) -> (r: Option<(u32, u32)>)
    ensures
        r matches Some(p) ==> target_size(w as nat, h as nat) == Some((p.0 as nat, p.1 as nat)),
        r is None <==> target_size(w as nat, h as nat) is None,
        r matches Some(p) ==> p.0 <= TARGET_SIDE && p.1 <= TARGET_SIDE,
        r matches Some(p) ==> (w > h ==> p.0 == TARGET_SIDE && p.1 * w <= TARGET_SIDE * h
            < (p.1 + 1) * w),
        r matches Some(p) ==> (w <= h ==> p.1 == TARGET_SIDE && p.0 * h <= TARGET_SIDE * w
            < (p.0 + 1) * h),
{
    if w < TARGET_SIDE && h < TARGET_SIDE {
        None
    } else if w > h {
        let scaled: u64 = (TARGET_SIDE as u64) * (h as u64) / (w as u64);
        proof {
            lemma_scaled_side(h as nat, w as nat);
        }
        Some((TARGET_SIDE, scaled as u32))
    } else {
        let scaled: u64 = (TARGET_SIDE as u64) * (w as u64) / (h as u64);
        proof {
            lemma_scaled_side(w as nat, h as nat);
        }
        Some((scaled as u32, TARGET_SIDE))
    }
}

proof fn lemma_scaled_side(s: nat, l: nat)
    requires
        s <= l,
        l > 0,
    ensures
        1000 * s / l <= 1000,
        (1000 * s / l) * l <= 1000 * s,
        1000 * s < (1000 * s / l + 1) * l,
{
    let n: int = 1000 * (s as int);
    let li: int = l as int;
    assert(n <= 1000 * li) by (nonlinear_arith) requires n == 1000 * s, s <= l, li == l;
    assert(n / li <= 1000) by (nonlinear_arith) requires n <= 1000 * li, li > 0;
    assert((n / li) * li <= n && n < (n / li + 1) * li) by (nonlinear_arith) requires li > 0;
}

} // verus!
