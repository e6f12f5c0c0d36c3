//! General properties of the filter model, stated over the spec
//! functions that the contracts of [`crate::filter::DigitalFilter`] use.

use vstd::prelude::*;

use crate::model::{fir_out, run_hist, run_outputs, step_hist, zero_history};

verus! {

/// The sum of the elements of `h`.
pub open spec fn seq_sum(h: Seq<i64>) -> int
    decreases h.len(),
{
    if h.len() == 0 {
        0
    } else {
        h.first() + seq_sum(h.drop_first())
    }
}

/// With unit taps the filter is a running sum: every output is the sum
/// of the samples in the window, zero-padded until the window has filled.
pub proof fn lemma_unit_taps_running_sum(h: Seq<i64>, t: Seq<i64>)
    requires
        h.len() == t.len(),
        forall|i: int| 0 <= i < t.len() ==> #[trigger] t[i] == 1i64,
    ensures
        fir_out(h, t) == seq_sum(h),
    decreases h.len(),
{
    if h.len() > 0 {
        assert(t.last() == 1i64);
        assert(h.first() * t.last() == h.first()) by (nonlinear_arith)
            requires
                t.last() == 1i64,
        ;
        assert(forall|i: int|
            0 <= i < t.drop_last().len() ==> #[trigger] t.drop_last()[i] == 1i64);
        lemma_unit_taps_running_sum(h.drop_first(), t.drop_last());
        assert(fir_out(h, t) == h.first() * t.last() + fir_out(h.drop_first(), t.drop_last()));
    }
}

/// A window holding a single one at position `p` and zeros elsewhere.
pub open spec fn one_hot(n: nat, p: int) -> Seq<i64> {
    Seq::new(n, |i: int| if i == p { 1i64 } else { 0i64 })
}

/// An input stream of length `m` carrying a unit impulse: a one followed
/// by zeros.
pub open spec fn impulse_inputs(m: nat) -> Seq<i64> {
    Seq::new(m, |i: int| if i == 0 { 1i64 } else { 0i64 })
}

/// The sliding window never grows or shrinks: after any number of update
/// steps it is exactly as long as it started.
pub proof fn lemma_history_len_preserved(h: Seq<i64>, xs: Seq<i64>)
    requires
        h.len() >= 1,
    ensures
        run_hist(h, xs).len() == h.len(),
    decreases xs.len(),
{
    if xs.len() > 0 {
        assert(step_hist(h, xs.first()).len() == h.len());
        lemma_history_len_preserved(step_hist(h, xs.first()), xs.drop_first());
    }
}

/// An all-zero window filters to zero, whatever the taps.
pub proof fn lemma_fir_out_zero_hist(t: Seq<i64>)
    ensures
        fir_out(zero_history(t.len()), t) == 0,
    decreases t.len(),
{
    let h = zero_history(t.len());
    if t.len() > 0 {
        assert(h.first() == 0i64);
        assert(h.drop_first() =~= zero_history(t.drop_last().len()));
        lemma_fir_out_zero_hist(t.drop_last());
        assert(fir_out(h, t) == h.first() * t.last() + fir_out(h.drop_first(), t.drop_last()));
    } else {
        assert(fir_out(h, t) == 0);
    }
}

/// A window holding a single one at position `p` filters to the single
/// coefficient that weights it: `t[t.len() - 1 - p]`.
pub proof fn lemma_fir_out_one_hot(t: Seq<i64>, p: int)
    requires
        0 <= p < t.len(),
    ensures
        fir_out(one_hot(t.len(), p), t) == t[t.len() - 1 - p],
    decreases t.len(),
{
    let n: nat = t.len();
    let h = one_hot(n, p);
    if p == 0 {
        assert(h.first() == 1i64);
        assert(h.drop_first() =~= zero_history(t.drop_last().len()));
        lemma_fir_out_zero_hist(t.drop_last());
    } else {
        assert(h.first() == 0i64);
        assert(h.drop_first() =~= one_hot(t.drop_last().len(), p - 1));
        lemma_fir_out_one_hot(t.drop_last(), p - 1);
    }
    assert(fir_out(h, t) == h.first() * t.last() + fir_out(h.drop_first(), t.drop_last()));
}

/// From an all-zero window, an all-zero input stream produces an all-zero
/// output stream.
pub proof fn lemma_outputs_zero_from_zero(t: Seq<i64>, m: nat)
    requires
        t.len() >= 1,
    ensures
        run_outputs(zero_history(t.len()), t, zero_history(m)).len() == m,
        forall|k: int|
            0 <= k < m ==> #[trigger] run_outputs(zero_history(t.len()), t, zero_history(m))[k]
                == 0,
    decreases m,
{
    let n: nat = t.len();
    if m > 0 {
        let xs = zero_history(m);
        let h1 = step_hist(zero_history(n), xs.first());
        assert(h1 =~= zero_history(n));
        assert(xs.drop_first() =~= zero_history((m - 1) as nat));
        lemma_fir_out_zero_hist(t);
        lemma_outputs_zero_from_zero(t, (m - 1) as nat);
    }
}

/// From a window holding a single one at position `p`, an all-zero input
/// stream replays the trailing coefficients as the one slides out:
/// the first `p` outputs are `t[t.len() - p]`, ..., `t[t.len() - 1]`,
/// and every output after that is zero.
pub proof fn lemma_outputs_one_hot(t: Seq<i64>, p: int, m: nat)
    requires
        t.len() >= 1,
        0 <= p < t.len(),
    ensures
        run_outputs(one_hot(t.len(), p), t, zero_history(m)).len() == m,
        forall|k: int|
            0 <= k < m ==> #[trigger] run_outputs(one_hot(t.len(), p), t, zero_history(m))[k]
                == (if k < p {
                    t[t.len() - p + k] as int
                } else {
                    0
                }),
    decreases m,
{
    let n: nat = t.len();
    if m > 0 {
        let xs = zero_history(m);
        let h1 = step_hist(one_hot(n, p), xs.first());
        assert(xs.drop_first() =~= zero_history((m - 1) as nat));
        if p == 0 {
            assert(h1 =~= zero_history(n));
            lemma_fir_out_zero_hist(t);
            lemma_outputs_zero_from_zero(t, (m - 1) as nat);
        } else {
            assert(h1 =~= one_hot(n, p - 1));
            lemma_fir_out_one_hot(t, p - 1);
            lemma_outputs_one_hot(t, p - 1, (m - 1) as nat);
        }
    }
}

/// The impulse response of the filter reproduces its coefficients: from a
/// fresh (all-zero) window, feeding a one followed by zeros yields the
/// taps `t[0], t[1], ..., t[t.len() - 1]` in order, and zeros once the
/// impulse has left the window.
pub proof fn lemma_impulse_response(t: Seq<i64>, m: nat)
    requires
        t.len() >= 1,
    ensures
        run_outputs(zero_history(t.len()), t, impulse_inputs(m)).len() == m,
        forall|k: int|
            0 <= k < m ==> #[trigger] run_outputs(zero_history(t.len()), t, impulse_inputs(m))[k]
                == (if k < t.len() {
                    t[k] as int
                } else {
                    0
                }),
{
    let n: nat = t.len();
    if m > 0 {
        let xs = impulse_inputs(m);
        let h1 = step_hist(zero_history(n), xs.first());
        assert(h1 =~= one_hot(n, n - 1));
        assert(xs.drop_first() =~= zero_history((m - 1) as nat));
        lemma_fir_out_one_hot(t, n - 1);
        lemma_outputs_one_hot(t, n - 1, (m - 1) as nat);
    }
}

} // verus!
