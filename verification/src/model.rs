//! Mathematical model of the streaming FIR filter: the sliding-window
//! history, the convolution that produces each output, and the bounds
//! under which the integer arithmetic cannot overflow.

use vstd::prelude::*;

verus! {

/// Largest number of taps a filter may have.
pub const MAX_TAPS: usize = 4095;

/// Largest magnitude a coefficient may have.
pub const COEFF_LIMIT: i64 = 16777216;

/// Largest magnitude an input sample may have.
pub const SAMPLE_LIMIT: i64 = 16777216;

/// Largest magnitude of a single coefficient-sample product.
pub const TERM_LIMIT: i64 = 281474976710656;

/// Every element of `c` has magnitude at most `COEFF_LIMIT`.
pub open spec fn coeffs_bounded(c: Seq<i64>) -> bool {
    forall|i: int| 0 <= i < c.len() ==> -COEFF_LIMIT <= #[trigger] c[i] <= COEFF_LIMIT
}

/// Every element of `h` has magnitude at most `SAMPLE_LIMIT`.
pub open spec fn samples_bounded(h: Seq<i64>) -> bool {
    forall|i: int| 0 <= i < h.len() ==> -SAMPLE_LIMIT <= #[trigger] h[i] <= SAMPLE_LIMIT
}

/// A coefficient sequence the constructor accepts: at least one real tap,
/// a trailing zero sentinel, a length the ring can hold, and every
/// coefficient within `COEFF_LIMIT`.
pub open spec fn valid_coeffs(c: Seq<i64>) -> bool {
    &&& 2 <= c.len() <= MAX_TAPS + 1
    &&& c.last() == 0i64
    &&& coeffs_bounded(c)
}

/// A history of `n` zero samples: the state right after construction,
/// before any real input has arrived.
pub open spec fn zero_history(n: nat) -> Seq<i64> {
    Seq::new(n, |i: int| 0i64)
}

/// One state transition of the sliding window: the oldest sample leaves,
/// `x` enters as the newest.
pub open spec fn step_hist(h: Seq<i64>, x: i64) -> Seq<i64> {
    h.drop_first().push(x)
}

/// The filter output for history `h` (oldest sample first) and taps `t`
/// (`t[0]` weights the newest sample): the convolution
/// `sum over i of h[i] * t[t.len() - 1 - i]`.
pub open spec fn fir_out(h: Seq<i64>, t: Seq<i64>) -> int
    recommends
        h.len() == t.len(),
    decreases h.len(),
{
    if h.len() == 0 {
        0
    } else {
        h.first() * t.last() + fir_out(h.drop_first(), t.drop_last())
    }
}

/// The history after feeding the samples `xs`, in order, to a filter whose
/// window held `h`.
pub open spec fn run_hist(h: Seq<i64>, xs: Seq<i64>) -> Seq<i64>
    decreases xs.len(),
{
    if xs.len() == 0 {
        h
    } else {
        run_hist(step_hist(h, xs.first()), xs.drop_first())
    }
}

/// The stream of outputs produced by feeding the samples `xs`, in order,
/// to a filter with taps `t` whose window held `h`.
pub open spec fn run_outputs(h: Seq<i64>, t: Seq<i64>, xs: Seq<i64>) -> Seq<int>
    decreases xs.len(),
{
    if xs.len() == 0 {
        Seq::<int>::empty()
    } else {
        let h1 = step_hist(h, xs.first());
        seq![fir_out(h1, t)] + run_outputs(h1, t, xs.drop_first())
    }
}

/// The product of two bounded values is bounded by the product of the bounds.
pub proof fn lemma_mul_bound(a: int, b: int, ab: int, bb: int)
    by (nonlinear_arith)
    requires
        -ab <= a <= ab,
        -bb <= b <= bb,
        0 <= ab,
        0 <= bb,
    ensures
        -(ab * bb) <= a * b <= ab * bb,
{
}

/// A convolution of bounded samples with bounded taps is bounded by the
/// window length times the largest possible single product.
pub proof fn lemma_fir_out_bound(h: Seq<i64>, t: Seq<i64>)
    requires
        h.len() == t.len(),
        samples_bounded(h),
        coeffs_bounded(t),
    ensures
        -(h.len() as int) * (TERM_LIMIT as int) <= fir_out(h, t) <= (h.len() as int) * (
        TERM_LIMIT as int),
    decreases h.len(),
{
    if h.len() > 0 {
        lemma_mul_bound(
            h.first() as int,
            t.last() as int,
            SAMPLE_LIMIT as int,
            COEFF_LIMIT as int,
        );
        assert(samples_bounded(h.drop_first()));
        assert(coeffs_bounded(t.drop_last()));
        lemma_fir_out_bound(h.drop_first(), t.drop_last());
    }
}

} // verus!
