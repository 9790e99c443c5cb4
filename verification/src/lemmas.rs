//! Small shared facts about flooring division, used throughout the
//! fixed-point arithmetic in this crate.

use vstd::prelude::*;
use vstd::arithmetic::div_mod::{
    lemma_div_is_ordered, lemma_div_multiples_vanish, lemma_div_pos_is_pos,
};

verus! {

/// Scaling a non-negative value by a proper fixed-point fraction cannot grow
/// it: `x * b / d` stays between `0` and `x` whenever `0 <= b <= d`.
pub(crate) proof fn lemma_mul_frac_le(x: int, b: int, d: int)
    requires
        0 <= x,
        0 <= b <= d,
        0 < d,
    ensures
        0 <= x * b / d <= x,
{
    assert(0 <= x * b) by (nonlinear_arith)
        requires
            0 <= x,
            0 <= b,
    ;
    lemma_div_pos_is_pos(x * b, d);
    assert(x * b <= d * x) by (nonlinear_arith)
        requires
            0 <= x,
            b <= d,
    ;
    lemma_div_is_ordered(x * b, d * x, d);
    lemma_div_multiples_vanish(x, d);
}

} // verus!
