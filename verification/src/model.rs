use vstd::prelude::*;

use crate::rational::Rat;
use crate::rational::Ratio;

verus! {

/// One exponential-smoothing transition with `alpha = 2 / (window_size + 1)`:
/// `prev + alpha * (obs - prev)`, written over the common denominator
/// `window_size + 1` as `((w - 1) * prev + 2 * obs) / (w + 1)`.
pub open spec fn step_model(w: int, prev: Ratio, obs: Ratio) -> Ratio {
    Ratio {
        num: (w - 1) * prev.num * obs.den + 2 * obs.num * prev.den,
        den: (w + 1) * prev.den * obs.den,
    }
}

/// The same transition assembled literally as `prev + alpha * (obs - prev)`
/// by exact fraction arithmetic, with `alpha = 2 / (w + 1)`: the difference,
/// scaled by alpha, added to the previous value.
pub open spec fn step_literal(w: int, prev: Ratio, obs: Ratio) -> Ratio {
    let diff = Ratio { num: obs.num * prev.den - prev.num * obs.den, den: obs.den * prev.den };
    let scaled = Ratio { num: 2 * diff.num, den: (w + 1) * diff.den };
    Ratio {
        num: prev.num * scaled.den + scaled.num * prev.den,
        den: prev.den * scaled.den,
    }
}

/// The exact difference `a - b` of two ratios.
pub open spec fn diff_model(a: Ratio, b: Ratio) -> Ratio {
    Ratio { num: a.num * b.den - b.num * a.den, den: a.den * b.den }
}

/// The exact product `a * b` of two ratios.
pub open spec fn mul_model(a: Ratio, b: Ratio) -> Ratio {
    Ratio { num: a.num * b.num, den: a.den * b.den }
}

/// The weight `(1 - alpha)^n` that an observation keeps after `n` further
/// smoothing steps: with `alpha = 2 / (w + 1)` this is `((w - 1) / (w + 1))^n`.
pub open spec fn decay_pow(w: int, n: nat) -> Ratio
    decreases n,
{
    if n == 0 {
        Ratio { num: 1, den: 1 }
    } else {
        mul_model(Ratio { num: w - 1, den: w + 1 }, decay_pow(w, (n - 1) as nat))
    }
}

/// The EMA of a run of observations, oldest first: the first observation is
/// the seed, taken raw, and each later one is folded in with `step_model`.
pub open spec fn ema_fold(w: int, s: Seq<Ratio>) -> Ratio
    decreases s.len(),
{
    if s.len() <= 1 {
        if s.len() == 1 {
            s[0]
        } else {
            Ratio { num: 0, den: 1 }
        }
    } else {
        step_model(w, ema_fold(w, s.drop_last()), s.last())
    }
}

pub open spec fn i64_fits(x: int) -> bool {
    -0x8000_0000_0000_0000 <= x <= 0x7fff_ffff_ffff_ffff
}

/// The two products and the resulting numerator and denominator of one
/// smoothing step stay within i64: the machine-side capacity bound on the
/// exact arithmetic.
pub open spec fn step_fits(w: int, prev: Ratio, obs: Ratio) -> bool {
    &&& i64_fits((w - 1) * prev.num * obs.den)
    &&& i64_fits(2 * obs.num * prev.den)
    &&& i64_fits((w - 1) * prev.num * obs.den + 2 * obs.num * prev.den)
    &&& i64_fits((w + 1) * prev.den * obs.den)
}

/// Every step of a full recomputation over `s` stays within i64.
pub open spec fn fold_fits(w: int, s: Seq<Ratio>) -> bool {
    forall|i: int|
        1 <= i < s.len() ==> step_fits(w, ema_fold(w, #[trigger] s.take(i)), s[i])
}

pub open spec fn all_wf(s: Seq<Ratio>) -> bool {
    forall|i: int| 0 <= i < s.len() ==> (#[trigger] s[i]).wf()
}

/// What the fast engine reports after having seen `hist`: once warm, the
/// fold over the whole history, evicted or not.
pub open spec fn fast_result_model(w: int, hist: Seq<Ratio>) -> Option<Ratio> {
    if hist.len() >= w {
        Some(ema_fold(w, hist))
    } else {
        None
    }
}

/// The bounded window that remains of the observations `hist`: the newest
/// `w` of them, or all of them while fewer have been seen.
pub open spec fn window_model(w: int, hist: Seq<Ratio>) -> Seq<Ratio> {
    if hist.len() <= w {
        hist
    } else {
        hist.skip(hist.len() - w)
    }
}

/// What the windowed engine reports after having seen `hist`: once warm,
/// the fold recomputed from the current window alone.
pub open spec fn windowed_result_model(w: int, hist: Seq<Ratio>) -> Option<Ratio> {
    if hist.len() >= w {
        Some(ema_fold(w, window_model(w, hist)))
    } else {
        None
    }
}

/// The model of a reported result.
pub open spec fn opt_model(r: Option<Rat>) -> Option<Ratio> {
    match r {
        Some(v) => Some(v@),
        None => None,
    }
}

pub proof fn lemma_step_wf(w: int, prev: Ratio, obs: Ratio)
    requires
        w >= 2,
        prev.wf(),
        obs.wf(),
    ensures
        step_model(w, prev, obs).wf(),
{
    assert((w + 1) * prev.den * obs.den > 0) by (nonlinear_arith)
        requires
            w >= 2,
            prev.den > 0,
            obs.den > 0,
    ;
}

pub proof fn lemma_diff_wf(a: Ratio, b: Ratio)
    requires
        a.wf(),
        b.wf(),
    ensures
        diff_model(a, b).wf(),
{
    assert(a.den * b.den > 0) by (nonlinear_arith)
        requires
            a.den > 0,
            b.den > 0,
    ;
}

pub proof fn lemma_mul_wf(a: Ratio, b: Ratio)
    requires
        a.wf(),
        b.wf(),
    ensures
        mul_model(a, b).wf(),
{
    assert(a.den * b.den > 0) by (nonlinear_arith)
        requires
            a.den > 0,
            b.den > 0,
    ;
}

pub proof fn lemma_fold_wf(w: int, s: Seq<Ratio>)
    requires
        w >= 2,
        s.len() >= 1,
        all_wf(s),
    ensures
        ema_fold(w, s).wf(),
    decreases s.len(),
{
    if s.len() > 1 {
        assert forall|i: int| 0 <= i < s.drop_last().len() implies (
        #[trigger] s.drop_last()[i]).wf() by {
            assert(s.drop_last()[i] == s[i]);
        }
        lemma_fold_wf(w, s.drop_last());
        lemma_step_wf(w, ema_fold(w, s.drop_last()), s.last());
    }
}

} // verus!
