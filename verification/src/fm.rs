//! The bookkeeping of a streaming FM discriminator, and decimation.
//!
//! Both only ever move samples about, so they take samples of any type. What
//! turns a pair of IQ samples into an angle is left to the caller.

use vstd::prelude::*;

verus! {

/// What one demodulated sample is made from.
#[derive(Debug, PartialEq)]
pub enum FmStep<S> {
    /// The first sample of a stream: there is nothing to compare it with, and
    /// it demodulates to silence.
    Silence,
    /// The angle of `now` times the conjugate of `before`.
    Turn { now: (S, S), before: (S, S) },
}

/// A streaming quadrature FM discriminator. It keeps one IQ sample across
/// calls, so that a signal is not corrupted at chunk boundaries.
pub struct FmDemod<S> {
    pub prev: Option<(S, S)>,
}

/// The step to sample `now` after `before`.
pub open spec fn step_to<S>(before: Option<(S, S)>, now: (S, S)) -> FmStep<S> {
    match before {
        None => FmStep::Silence,
        Some(b) => FmStep::Turn { now, before: b },
    }
}

/// The sample that precedes position `k` of `iq`, which follows `prev`.
pub open spec fn sample_before<S>(prev: Option<(S, S)>, iq: Seq<(S, S)>, k: int) -> Option<(S, S)> {
    if k <= 0 {
        prev
    } else {
        Some(iq[k - 1])
    }
}

/// One step per IQ sample, each from the sample before it.
pub open spec fn steps_of<S>(prev: Option<(S, S)>, iq: Seq<(S, S)>) -> Seq<FmStep<S>> {
    Seq::new(iq.len(), |k: int| step_to(sample_before(prev, iq, k), iq[k]))
}

impl<S: Copy> FmDemod<S> {
    /// A discriminator at the start of a stream.
    pub fn new() -> (demod: Self)
        ensures
            demod.prev is None,
    {
        FmDemod { prev: None }
    }

    /// One step per input IQ sample, to be turned into one demodulated sample
    /// each.
    pub fn process(&mut self, iq: &[(S, S)]) -> (out: Vec<FmStep<S>>)
        ensures
            out@.len() == iq@.len(),
            out@ == steps_of(old(self).prev, iq@),
            final(self).prev == sample_before(old(self).prev, iq@, iq@.len() as int),
    {
        let ghost start = self.prev;
        let mut out: Vec<FmStep<S>> = Vec::with_capacity(iq.len());
        let mut k: usize = 0;
        while k < iq.len()
            invariant
                k <= iq@.len(),
                out@.len() == k,
                forall|i: int|
                    0 <= i < k ==> #[trigger] out@[i] == step_to(
                        sample_before(start, iq@, i),
                        iq@[i],
                    ),
                self.prev == sample_before(start, iq@, k as int),
            decreases iq.len() - k,
        {
            let now: (S, S) = iq[k];
            match self.prev {
                Some(before) => {
                    out.push(FmStep::Turn { now, before });
                },
                None => {
                    out.push(FmStep::Silence);
                },
            }
            self.prev = Some(now);
            k += 1;
        }
        assert(out@ =~= steps_of(start, iq@));
        out
    }
}

/// How many samples are left of `len` when every `factor`-th is kept.
pub open spec fn kept(len: int, factor: int) -> int {
    (len + factor - 1) / factor
}

/// Every `factor`-th sample, from the first on.
pub open spec fn decimated<S>(samples: Seq<S>, factor: int) -> Seq<S> {
    if factor <= 1 {
        samples
    } else {
        Seq::new(kept(samples.len() as int, factor) as nat, |k: int| samples[k * factor])
    }
}

proof fn lemma_kept(len: int, factor: int, k: int)
    requires
        0 < factor,
        0 <= len,
        0 <= k,
        k * factor < len || k == 0,
        len <= k * factor + factor,
        len == 0 ==> k == 0,
    ensures
        kept(len, factor) == if len == 0 {
            0
        } else {
            k + 1
        },
{
    if len == 0 {
        vstd::arithmetic::div_mod::lemma_fundamental_div_mod_converse(factor - 1, factor, 0, factor - 1);
    } else {
        let r = len - k * factor - 1;
        assert(0 <= r < factor) by {
            if k == 0 {
                assert(k * factor == 0) by (nonlinear_arith)
                    requires
                        k == 0,
                ;
            }
        }
        assert(len + factor - 1 == (k + 1) * factor + r) by (nonlinear_arith)
            requires
                r == len - k * factor - 1,
        ;
        vstd::arithmetic::div_mod::lemma_fundamental_div_mod_converse(
            len + factor - 1,
            factor,
            k + 1,
            r,
        );
    }
}

/// Plain integer decimation: picks every `factor`-th sample, with no filter
/// before it. A factor of 0 or 1 keeps everything.
pub fn decimate<S: Copy>(samples: &[S], factor: usize) -> (out: Vec<S>)
    ensures
        out@ == decimated(samples@, factor as int),
{
    let step: usize = if factor <= 1 {
        1
    } else {
        factor
    };
    let n: usize = samples.len();
    let mut out: Vec<S> = Vec::new();
    let mut pos: usize = 0;
    proof {
        assert(0 * step == 0) by (nonlinear_arith);
        if n == 0 {
            lemma_kept(0, step as int, 0);
        }
    }
    while pos < n
        invariant
            n == samples@.len(),
            0 < step,
            pos <= n,
            pos < n ==> pos == out@.len() * step,
            pos == n ==> out@.len() == kept(n as int, step as int),
            forall|i: int| 0 <= i < out@.len() ==> #[trigger] out@[i] == samples@[i * step],
        decreases n - pos,
    {
        let ghost k = out@.len() as int;
        out.push(samples[pos]);
        if n - pos <= step {
            proof {
                lemma_kept(n as int, step as int, k);
            }
            pos = n;
        } else {
            proof {
                assert((k + 1) * step == k * step + step) by (nonlinear_arith);
            }
            pos += step;
        }
    }
    proof {
        if factor <= 1 {
            assert(kept(n as int, 1) == n);
            assert(out@.len() == n);
            assert forall|i: int| 0 <= i < n implies out@[i] == samples@[i] by {
                assert(out@[i] == samples@[i * step]);
            }
        }
        assert(out@ =~= decimated(samples@, factor as int));
    }
    out
}

/// Cutting an IQ stream into chunks does not change what it demodulates to.
pub proof fn law_fm_chunks<S>(prev: Option<(S, S)>, a: Seq<(S, S)>, b: Seq<(S, S)>)
    ensures
        steps_of(prev, a + b) == steps_of(prev, a) + steps_of(
            sample_before(prev, a, a.len() as int),
            b,
        ),
        sample_before(prev, a + b, (a + b).len() as int) == sample_before(
            sample_before(prev, a, a.len() as int),
            b,
            b.len() as int,
        ),
{
    assert(steps_of(prev, a + b) =~= steps_of(prev, a) + steps_of(
        sample_before(prev, a, a.len() as int),
        b,
    ));
}

/// Only the very first sample of a stream demodulates to silence.
pub proof fn law_fm_silent_once<S>(prev: Option<(S, S)>, iq: Seq<(S, S)>, k: int)
    requires
        0 <= k < iq.len(),
    ensures
        steps_of(prev, iq)[k] is Silence <==> (k == 0 && prev is None),
{
}

/// Decimating chunk by chunk is the same as decimating the whole, where the
/// cut falls on a multiple of the factor.
pub proof fn law_decimate_chunks<S>(a: Seq<S>, b: Seq<S>, factor: int)
    requires
        factor <= 1 || a.len() as int % factor == 0,
    ensures
        decimated(a + b, factor) == decimated(a, factor) + decimated(b, factor),
{
    if factor > 1 {
        let n = a.len() as int;
        let q = n / factor;
        vstd::arithmetic::div_mod::lemma_fundamental_div_mod(n, factor);
        assert(n == q * factor) by (nonlinear_arith)
            requires
                n == factor * q,
        ;
        assert(0 <= q) by (nonlinear_arith)
            requires
                n == q * factor,
                0 <= n,
                factor > 1,
        ;
        lemma_kept_sum(q, b.len() as int, factor);
        lemma_kept_sum(q, 0, factor);
        lemma_kept(0, factor, 0);
        let whole = decimated(a + b, factor);
        let parts = decimated(a, factor) + decimated(b, factor);
        lemma_kept_bound(b.len() as int, factor, 0);
        assert(whole.len() == parts.len());
        assert forall|k: int| 0 <= k < whole.len() implies whole[k] == parts[k] by {
            lemma_kept_bound((a + b).len() as int, factor, k);
            assert(whole[k] == (a + b)[k * factor]);
            if k < q {
                assert(0 <= k * factor < n) by (nonlinear_arith)
                    requires
                        0 <= k < q,
                        n == q * factor,
                        factor > 1,
                ;
                assert(parts[k] == decimated(a, factor)[k]);
            } else {
                assert((k - q) * factor == k * factor - n) by (nonlinear_arith)
                    requires
                        n == q * factor,
                ;
                assert(0 <= (k - q) * factor) by (nonlinear_arith)
                    requires
                        0 <= k - q,
                        factor > 1,
                ;
                assert(parts[k] == decimated(b, factor)[k - q]);
            }
        }
        assert(whole =~= parts);
    }
}

proof fn lemma_kept_bound(len: int, factor: int, k: int)
    requires
        0 < factor,
        0 <= len,
    ensures
        0 <= kept(len, factor),
        0 <= k < kept(len, factor) ==> 0 <= k * factor < len,
{
    let x = len + factor - 1;
    let c = kept(len, factor);
    vstd::arithmetic::div_mod::lemma_fundamental_div_mod(x, factor);
    vstd::arithmetic::div_mod::lemma_mod_bound(x, factor);
    let r = x % factor;
    assert(0 <= c) by (nonlinear_arith)
        requires
            x == factor * c + r,
            0 <= x,
            r < factor,
            0 < factor,
    ;
    if 0 <= k < c {
        assert(0 <= k * factor < len) by (nonlinear_arith)
            requires
                0 <= k < c,
                0 < factor,
                x == factor * c + r,
                0 <= r < factor,
                x == len + factor - 1,
        ;
    }
}

proof fn lemma_kept_sum(q: int, len: int, factor: int)
    requires
        0 < factor,
        0 <= q,
        0 <= len,
    ensures
        kept(q * factor + len, factor) == q + kept(len, factor),
{
    vstd::arithmetic::div_mod::lemma_hoist_over_denominator(len + factor - 1, q, factor as nat);
}

/// Decimating twice is decimating once by the product of the factors.
pub proof fn law_decimate_twice<S>(samples: Seq<S>, f: int, g: int)
    requires
        f >= 1,
        g >= 1,
    ensures
        decimated(decimated(samples, f), g) == decimated(samples, f * g),
{
    if f > 1 && g > 1 {
        let n = samples.len() as int;
        let m = kept(n, f);
        assert(f * g > 1) by (nonlinear_arith)
            requires
                f > 1,
                g > 1,
        ;
        lemma_kept_bound(n, f, 0);
        lemma_kept_bound(m, g, 0);
        assert(kept(m, g) == kept(n, f * g)) by {
            vstd::arithmetic::div_mod::lemma_hoist_over_denominator(n - 1, 1, f as nat);
            vstd::arithmetic::div_mod::lemma_hoist_over_denominator(m - 1, 1, g as nat);
            vstd::arithmetic::div_mod::lemma_hoist_over_denominator(n - 1, 1, (f * g) as nat);
            if n > 0 {
                vstd::arithmetic::div_mod::lemma_div_denominator(n - 1, f, g);
            } else {
                lemma_kept(0, f, 0);
                lemma_kept(0, g, 0);
                lemma_kept(0, f * g, 0);
            }
        }
        let twice = decimated(decimated(samples, f), g);
        let once = decimated(samples, f * g);
        assert forall|k: int| 0 <= k < twice.len() implies twice[k] == once[k] by {
            lemma_kept_bound(m, g, k);
            assert((k * g) * f == k * (f * g)) by (nonlinear_arith);
        }
        assert(twice =~= once);
    } else if f == 1 {
        assert(f * g == g);
    } else {
        assert(f * g == f) by (nonlinear_arith)
            requires
                g == 1,
        ;
    }
}

/// Every sample is set against the one before it, also across calls: the first
/// of a call against the last of the one before, and the very first of a stream
/// against nothing. The last sample is kept for the next call.
pub proof fn law_steps_taken<S: Copy>(
    demod: &mut FmDemod<S>,
    iq: &[(S, S)],
    out: Vec<FmStep<S>>,
)
    requires
        call_ensures(FmDemod::<S>::process, (demod, iq), out),
    ensures
        out@ == steps_of(old(demod).prev, iq@),
        out@.len() == iq@.len(),
        forall|k: int|
            0 < k < iq@.len() ==> #[trigger] out@[k] == (FmStep::Turn {
                now: iq@[k],
                before: iq@[k - 1],
            }),
        iq@.len() > 0 ==> out@[0] == match old(demod).prev {
            Some(last) => FmStep::Turn { now: iq@[0], before: last },
            None => FmStep::Silence,
        },
        final(demod).prev == if iq@.len() == 0 {
            old(demod).prev
        } else {
            Some(iq@[iq@.len() - 1])
        },
{
}

/// A new discriminator has no sample to set the first one against.
pub proof fn law_fresh_discriminator<S: Copy>(demod: FmDemod<S>)
    requires
        call_ensures(FmDemod::<S>::new, (), demod),
    ensures
        demod.prev is None,
{
}

/// Decimation by `factor` keeps the samples at the multiples of it, in order:
/// sample `k` kept stands at `k * factor`, and no multiple further on is left. A
/// factor of 0 or 1 keeps all.
pub proof fn law_decimated_places<S: Copy>(samples: &[S], factor: usize, out: Vec<S>)
    requires
        call_ensures(decimate::<S>, (samples, factor), out),
    ensures
        out@ == decimated(samples@, factor as int),
        factor <= 1 ==> out@ == samples@,
        factor > 1 ==> {
            &&& forall|k: int| 0 <= k < out@.len() ==> #[trigger] out@[k] == samples@[k * factor]
            &&& out@.len() > 0 ==> (out@.len() - 1) * factor < samples@.len()
            &&& samples@.len() <= out@.len() * factor
        },
{
    let n = samples@.len() as int;
    if factor > 1 {
        let f = factor as int;
        let c = kept(n, f);
        lemma_kept_bound(n, f, c - 1);
        let x = n + f - 1;
        vstd::arithmetic::div_mod::lemma_fundamental_div_mod(x, f);
        vstd::arithmetic::div_mod::lemma_mod_bound(x, f);
        let r = x % f;
        assert(out@.len() == c);
        let len = out@.len();
        assert(n <= len * factor) by (nonlinear_arith)
            requires
                len == c,
                factor == f,
                x == f * c + r,
                0 <= r < f,
                x == n + f - 1,
        ;
    }
}

} // verus!
