//! The streaming FIR filter: construction with coefficient validation,
//! the per-sample update, and the history reset.

use vstd::prelude::*;

use crate::model::{
    coeffs_bounded, fir_out, lemma_fir_out_bound, lemma_mul_bound, samples_bounded, step_hist,
    valid_coeffs, zero_history, COEFF_LIMIT, MAX_TAPS, SAMPLE_LIMIT,
};
use crate::ring::{ring_contents, ring_dequeue, ring_enqueue, ring_items, ring_new, RING_CAP};

verus! {

/// The one way construction can fail: the supplied coefficient sequence
/// does not meet the structural requirements of [`DigitalFilter::new`].
#[derive(Debug, PartialEq, Eq, Structural, Clone, Copy)]
pub enum FilterError {
    InvalidCoefficients,
}

/// A streaming FIR filter with a fixed number of taps, set at
/// construction. It owns its coefficients and a circular buffer holding
/// the most recent samples; each [`DigitalFilter::filter`] call slides
/// the window by one sample and returns the convolution of the window
/// with the taps.
pub struct DigitalFilter {
    coeffs: Vec<i64>,
    buffer: heapless::spsc::Queue<i64, RING_CAP>,
    num_taps: usize,
}

impl DigitalFilter {
    /// The tap weights, in the order supplied: `taps()[0]` weights the
    /// newest sample. The trailing sentinel is not part of the taps.
    pub closed spec fn taps(self) -> Seq<i64> {
        self.coeffs@.drop_last()
    }

    /// The sample window, oldest sample first; always exactly as long as
    /// the taps.
    pub closed spec fn history(self) -> Seq<i64> {
        ring_contents(self.buffer)
    }

    /// The filter's internal invariant: the coefficient sequence is one
    /// the constructor accepts, and the window holds one bounded sample
    /// per tap.
    pub closed spec fn wf(self) -> bool {
        &&& 1 <= self.num_taps <= MAX_TAPS
        &&& self.coeffs@.len() == self.num_taps + 1
        &&& valid_coeffs(self.coeffs@)
        &&& ring_contents(self.buffer).len() == self.num_taps
        &&& samples_bounded(ring_contents(self.buffer))
    }

    /// A well-formed filter holds at least one tap, and its window is
    /// exactly as long as its taps — the invariant every operation
    /// preserves.
    pub proof fn lemma_wf_shape(self)
        requires
            self.wf(),
        ensures
            self.taps().len() >= 1,
            self.history().len() == self.taps().len(),
    {
    }

    /// Build a filter from `coeffs`, whose last element is a sentinel
    /// slot that must hold zero; the elements before it are the taps.
    /// Construction succeeds exactly when `coeffs` holds at least one tap
    /// plus the zero sentinel, at most `MAX_TAPS + 1` elements in all,
    /// and no coefficient exceeds `COEFF_LIMIT` in magnitude; otherwise
    /// no filter is produced. A fresh filter's window is all zeros.
    pub fn new(coeffs: Vec<i64>) -> (r: Result<DigitalFilter, FilterError>)
        ensures
            r matches Ok(f) <==> valid_coeffs(coeffs@),
            r matches Ok(f) ==> {
                &&& f.wf()
                &&& f.taps() == coeffs@.drop_last()
                &&& f.history() == zero_history((coeffs@.len() - 1) as nat)
            },
            r matches Err(e) ==> e == FilterError::InvalidCoefficients,
    {
        if coeffs.len() < 2 || coeffs.len() > MAX_TAPS + 1 {
            return Err(FilterError::InvalidCoefficients);
        }
        let num_taps: usize = coeffs.len() - 1;
        if coeffs[num_taps] != 0 {
            return Err(FilterError::InvalidCoefficients);
        }
        let mut i: usize = 0;
        while i < coeffs.len()
            invariant
                0 <= i <= coeffs@.len(),
                forall|j: int| 0 <= j < i ==> -COEFF_LIMIT <= #[trigger] coeffs@[j] <= COEFF_LIMIT,
            decreases coeffs@.len() - i,
        {
            if coeffs[i] < -COEFF_LIMIT || coeffs[i] > COEFF_LIMIT {
                return Err(FilterError::InvalidCoefficients);
            }
            i += 1;
        }
        let mut buffer = ring_new();
        let mut j: usize = 0;
        while j < num_taps
            invariant
                0 <= j <= num_taps,
                num_taps <= MAX_TAPS,
                ring_contents(buffer) == zero_history(j as nat),
            decreases num_taps - j,
        {
            let _ = ring_enqueue(&mut buffer, 0);
            proof {
                assert(ring_contents(buffer) =~= zero_history((j + 1) as nat));
            }
            j += 1;
        }
        Ok(DigitalFilter { coeffs, buffer, num_taps })
    }

    /// Consume one input sample and produce one output sample: the oldest
    /// sample leaves the window, `input` enters as the newest, and the
    /// output is the convolution of the updated window with the taps —
    /// `sum over i of history[i] * taps[taps.len() - 1 - i]`, with the
    /// window ordered oldest first. The window keeps its length.
    #[verifier::loop_isolation(false)]
    pub fn filter(&mut self, input: i64) -> (out: i64)
        requires
            old(self).wf(),
            -SAMPLE_LIMIT <= input <= SAMPLE_LIMIT,
        ensures
            final(self).wf(),
            final(self).taps() == old(self).taps(),
            final(self).history() == step_hist(old(self).history(), input),
            out == fir_out(step_hist(old(self).history(), input), old(self).taps()),
    {
        let _ = ring_dequeue(&mut self.buffer);
        let _ = ring_enqueue(&mut self.buffer, input);
        proof {
            assert(ring_contents(self.buffer) == step_hist(
                ring_contents(old(self).buffer),
                input,
            ));
            assert(samples_bounded(ring_contents(self.buffer)));
        }
        let items = ring_items(&self.buffer);
        let n: usize = self.num_taps;
        let ghost h = ring_contents(self.buffer);
        let ghost t = self.coeffs@.drop_last();
        proof {
            assert(h.skip(0) =~= h);
            assert(t.take(n as int) =~= t);
            assert(samples_bounded(h));
            assert(coeffs_bounded(t));
        }
        let mut acc: i64 = 0;
        let mut c_idx: usize = n;
        let mut i: usize = 0;
        while i < n
            invariant
                0 <= i <= n,
                c_idx == n - i,
                acc == fir_out(h, t) - fir_out(h.skip(i as int), t.take((n - i) as int)),
            decreases n - i,
        {
            c_idx -= 1;
            let x = items[i];
            let c = self.coeffs[c_idx];
            proof {
                assert(samples_bounded(h.skip(i as int)));
                assert(coeffs_bounded(t.take((n - i) as int)));
                assert(t[c_idx as int] == self.coeffs@[c_idx as int]);
                lemma_mul_bound(x as int, c as int, SAMPLE_LIMIT as int, COEFF_LIMIT as int);
                lemma_fir_out_bound(h, t);
                lemma_fir_out_bound(h.skip(i as int), t.take((n - i) as int));
                assert(h.skip(i as int).first() == h[i as int]);
                assert(t.take((n - i) as int).last() == t[c_idx as int]);
                assert(h.skip(i as int).drop_first() =~= h.skip(i + 1));
                assert(t.take((n - i) as int).drop_last() =~= t.take(n - i - 1));
                assert(fir_out(h.skip(i as int), t.take((n - i) as int)) == h[i as int] * t[
                    c_idx as int] + fir_out(h.skip(i + 1), t.take(n - i - 1)));
            }
            acc = acc + x * c;
            i += 1;
        }
        proof {
            assert(h.skip(n as int).len() == 0);
            assert(fir_out(h.skip(n as int), t.take(0)) == 0);
        }
        acc
    }

    /// Discard every sample in the window and refill it with zeros: the
    /// filter forgets everything it has seen and behaves exactly like a
    /// freshly constructed one with the same coefficients.
    #[verifier::loop_isolation(false)]
    pub fn clear_buffer(&mut self)
        requires
            old(self).wf(),
        ensures
            final(self).wf(),
            final(self).taps() == old(self).taps(),
            final(self).history() == zero_history(old(self).taps().len()),
    {
        let n: usize = self.num_taps;
        let mut k: usize = 0;
        while k < n
            invariant
                0 <= k <= n,
                self.coeffs == old(self).coeffs,
                self.num_taps == old(self).num_taps,
                ring_contents(self.buffer).len() == n - k,
            decreases n - k,
        {
            let _ = ring_dequeue(&mut self.buffer);
            k += 1;
        }
        let mut j: usize = 0;
        while j < n
            invariant
                0 <= j <= n,
                self.coeffs == old(self).coeffs,
                self.num_taps == old(self).num_taps,
                ring_contents(self.buffer) == zero_history(j as nat),
            decreases n - j,
        {
            let _ = ring_enqueue(&mut self.buffer, 0);
            proof {
                assert(ring_contents(self.buffer) =~= zero_history((j + 1) as nat));
            }
            j += 1;
        }
    }
}

} // verus!
