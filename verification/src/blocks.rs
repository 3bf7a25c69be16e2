//! Arithmetic of block grids: multiples of a block side, the corner of the
//! block that a position lies in, and how the grid of one stage sits in the
//! grid of the stage before.

use vstd::arithmetic::div_mod::{
    lemma_fundamental_div_mod, lemma_fundamental_div_mod_converse, lemma_mod_bound,
};
use vstd::prelude::*;

verus! {

/// The corner of the block of side `s` that coordinate `q` lies in.
pub open spec fn corner(q: int, s: int) -> int {
    (q / s) * s
}

/// A multiple of `s` is aligned to `s`, and dividing gives the factor back.
pub proof fn lemma_multiple(k: int, s: int)
    requires
        s > 0,
    ensures
        (k * s) % s == 0,
        (k * s) / s == k,
{
    lemma_fundamental_div_mod_converse(k * s, s, k, 0);
}

/// What is aligned to `s` is a multiple of `s`.
pub proof fn lemma_aligned(x: int, s: int)
    requires
        s > 0,
        x % s == 0,
    ensures
        x == (x / s) * s,
{
    lemma_fundamental_div_mod(x, s);
    assert(s * (x / s) == (x / s) * s) by (nonlinear_arith);
}

/// The next aligned coordinate after `x` is `x + s`.
pub proof fn lemma_aligned_next(x: int, s: int)
    requires
        s > 0,
        x % s == 0,
    ensures
        (x + s) % s == 0,
        (x + s) / s == x / s + 1,
        forall|z: int| z % s == 0 && x < z ==> x + s <= #[trigger] (z / s) * s,
{
    lemma_aligned(x, s);
    assert(x + s == (x / s + 1) * s) by (nonlinear_arith)
        requires
            x == (x / s) * s,
    ;
    lemma_multiple(x / s + 1, s);
    assert forall|z: int| z % s == 0 && x < z implies x + s <= #[trigger] (z / s) * s by {
        lemma_aligned(z, s);
        assert(x / s < z / s) by (nonlinear_arith)
            requires
                s > 0,
                x == (x / s) * s,
                z == (z / s) * s,
                x < z,
        ;
        assert((x / s + 1) * s <= (z / s) * s) by (nonlinear_arith)
            requires
                s > 0,
                x / s + 1 <= z / s,
        ;
    }
}

/// The corner of a block is aligned, and the block reaches from it to just
/// before the next corner.
pub proof fn lemma_corner(q: int, s: int)
    requires
        s > 0,
        q >= 0,
    ensures
        0 <= corner(q, s) <= q < corner(q, s) + s,
        corner(q, s) % s == 0,
        corner(q, s) / s == q / s,
        q / s >= 0,
{
    lemma_fundamental_div_mod(q, s);
    lemma_mod_bound(q, s);
    assert(s * (q / s) == (q / s) * s) by (nonlinear_arith);
    lemma_multiple(q / s, s);
    assert(q / s >= 0) by (nonlinear_arith)
        requires
            s > 0,
            (q / s) * s + s > 0,
    ;
    assert((q / s) * s >= 0) by (nonlinear_arith)
        requires
            s > 0,
            q / s >= 0,
    ;
}

/// Only one aligned block reaches a given coordinate.
pub proof fn lemma_corner_unique(x: int, q: int, s: int)
    requires
        s > 0,
        x % s == 0,
        x <= q < x + s,
    ensures
        x == corner(q, s),
{
    lemma_aligned(x, s);
    lemma_fundamental_div_mod_converse(q, s, x / s, q - x);
}

/// A block in an even column or row of its grid begins where the block of
/// double side around it begins.
pub proof fn lemma_corner_of_double(q: int, s: int)
    requires
        s > 0,
        q >= 0,
        (q / s) % 2 == 0,
    ensures
        corner(q, 2 * s) == corner(q, s),
{
    lemma_corner(q, s);
    let half = (q / s) / 2;
    assert(q / s == 2 * half);
    assert(corner(q, s) == half * (2 * s)) by (nonlinear_arith)
        requires
            corner(q, s) == (q / s) * s,
            q / s == 2 * half,
    ;
    lemma_fundamental_div_mod_converse(q, 2 * s, half, q - corner(q, s));
}

} // verus!
