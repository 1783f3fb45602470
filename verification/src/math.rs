//! Bounded 128-bit arithmetic helpers shared by the geometry and mapping code.

use vstd::prelude::*;

verus! {

/// The product of two values bounded in magnitude is bounded by the product of
/// the bounds.
pub proof fn lemma_abs_mul_bound(a: int, b: int, ba: int, bb: int)
    requires
        -ba <= a <= ba,
        -bb <= b <= bb,
        0 <= ba,
        0 <= bb,
    ensures
        -(ba * bb) <= a * b <= ba * bb,
{
    assert(-(ba * bb) <= a * b <= ba * bb) by (nonlinear_arith)
        requires
            -ba <= a <= ba,
            -bb <= b <= bb,
            0 <= ba,
            0 <= bb,
    ;
}

/// Multiply two `i128` values whose magnitude bounds are known to keep the
/// product representable.
pub(crate) fn mul_i128(a: i128, b: i128, Ghost(ba): Ghost<int>, Ghost(bb): Ghost<int>) -> (r: i128)
    requires
        -ba <= a <= ba,
        -bb <= b <= bb,
        0 <= ba,
        0 <= bb,
        ba * bb <= i128::MAX,
    ensures
        r == a * b,
        -(ba * bb) <= r <= ba * bb,
{
    proof {
        lemma_abs_mul_bound(a as int, b as int, ba, bb);
    }
    a * b
}

} // verus!
