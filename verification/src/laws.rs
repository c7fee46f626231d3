use vstd::prelude::*;

use crate::model::all_wf;
use crate::model::decay_pow;
use crate::model::diff_model;
use crate::model::ema_fold;
use crate::model::fast_result_model;
use crate::model::lemma_diff_wf;
use crate::model::lemma_fold_wf;
use crate::model::lemma_mul_wf;
use crate::model::mul_model;
use crate::model::step_literal;
use crate::model::step_model;
use crate::model::window_model;
use crate::model::windowed_result_model;
use crate::rational::eqv;
use crate::rational::Ratio;

verus! {

/// First-value agreement: after exactly `window_size` observations the two
/// engines report the same value, because at that moment the fast engine's
/// whole history is the full window — nothing has been evicted yet.
pub proof fn lemma_first_value_agreement(w: int, obs: Seq<Ratio>)
    requires
        w >= 2,
        obs.len() == w,
    ensures
        fast_result_model(w, obs) == windowed_result_model(w, obs),
{
    assert(window_model(w, obs) == obs);
}

/// The common-denominator form `((w - 1) * prev + 2 * obs) / (w + 1)` that
/// the engines compute is the same number as the defining formula
/// `prev + alpha * (obs - prev)` assembled step by step.
pub proof fn lemma_step_matches_literal_form(w: int, prev: Ratio, obs: Ratio)
    requires
        w >= 2,
        prev.wf(),
        obs.wf(),
    ensures
        eqv(step_model(w, prev, obs), step_literal(w, prev, obs)),
{
    let pn = prev.num;
    let pd = prev.den;
    let on = obs.num;
    let od = obs.den;
    let sn = (w - 1) * pn * od + 2 * on * pd;
    let sd = (w + 1) * pd * od;
    let ln = pn * ((w + 1) * (od * pd)) + (2 * (on * pd - pn * od)) * pd;
    let ld = pd * ((w + 1) * (od * pd));
    assert(step_literal(w, prev, obs).num == ln);
    assert(step_literal(w, prev, obs).den == ld);
    assert(ln == pd * sn) by (nonlinear_arith)
        requires
            ln == pn * ((w + 1) * (od * pd)) + (2 * (on * pd - pn * od)) * pd,
            sn == (w - 1) * pn * od + 2 * on * pd,
    ;
    assert(ld == pd * sd) by (nonlinear_arith)
        requires
            ld == pd * ((w + 1) * (od * pd)),
            sd == (w + 1) * pd * od,
    ;
    assert(sn * ld == ln * sd) by (nonlinear_arith)
        requires
            ln == pd * sn,
            ld == pd * sd,
    ;
}

/// One smoothing step multiplies the cross-difference of two values by
/// `(w + 1) * (w - 1) * obs.den * obs.den`.
proof fn lemma_step_cross_identity(w: int, p1: Ratio, p2: Ratio, obs: Ratio)
    ensures
        step_model(w, p1, obs).num * step_model(w, p2, obs).den - step_model(w, p2, obs).num
            * step_model(w, p1, obs).den == (w + 1) * (w - 1) * obs.den * obs.den * (p1.num
            * p2.den - p2.num * p1.den),
{
    let a1 = p1.num;
    let b1 = p1.den;
    let a2 = p2.num;
    let b2 = p2.den;
    let p = obs.num;
    let q = obs.den;
    let t1 = (w - 1) * a1 * q;
    let u1 = 2 * p * b1;
    let t2 = (w - 1) * a2 * q;
    let u2 = 2 * p * b2;
    let d1 = (w + 1) * b1 * q;
    let d2 = (w + 1) * b2 * q;
    let k = (w + 1) * (w - 1) * q * q;
    let d = a1 * b2 - a2 * b1;
    vstd::arithmetic::mul::lemma_mul_is_distributive_add_other_way(d2, t1, u1);
    vstd::arithmetic::mul::lemma_mul_is_distributive_add_other_way(d1, t2, u2);
    assert(t1 * d2 == k * (a1 * b2)) by (nonlinear_arith)
        requires
            t1 == (w - 1) * a1 * q,
            d2 == (w + 1) * b2 * q,
            k == (w + 1) * (w - 1) * q * q,
    ;
    assert(t2 * d1 == k * (a2 * b1)) by (nonlinear_arith)
        requires
            t2 == (w - 1) * a2 * q,
            d1 == (w + 1) * b1 * q,
            k == (w + 1) * (w - 1) * q * q,
    ;
    assert(u1 * d2 == u2 * d1) by (nonlinear_arith)
        requires
            u1 == 2 * p * b1,
            d2 == (w + 1) * b2 * q,
            u2 == 2 * p * b2,
            d1 == (w + 1) * b1 * q,
    ;
    vstd::arithmetic::mul::lemma_mul_is_distributive_sub(k, a1 * b2, a2 * b1);
    assert((t1 + u1) * d2 - (t2 + u2) * d1 == k * d);
    assert(step_model(w, p1, obs).num == t1 + u1);
    assert(step_model(w, p2, obs).num == t2 + u2);
    assert(step_model(w, p1, obs).den == d1);
    assert(step_model(w, p2, obs).den == d2);
}

/// One smoothing step keeps distinct values distinct: it is an affine map
/// with the nonzero slope `(w - 1) / (w + 1)`.
proof fn lemma_step_keeps_distinct(w: int, p1: Ratio, p2: Ratio, obs: Ratio)
    requires
        w >= 2,
        p1.wf(),
        p2.wf(),
        obs.wf(),
        !eqv(p1, p2),
    ensures
        !eqv(step_model(w, p1, obs), step_model(w, p2, obs)),
{
    lemma_step_cross_identity(w, p1, p2, obs);
    let k = (w + 1) * (w - 1) * obs.den * obs.den;
    let d = p1.num * p2.den - p2.num * p1.den;
    assert(k > 0) by (nonlinear_arith)
        requires
            w >= 2,
            obs.den > 0,
            k == (w + 1) * (w - 1) * obs.den * obs.den,
    ;
    assert(d != 0);
    assert(k * d != 0) by (nonlinear_arith)
        requires
            k > 0,
            d != 0,
    ;
}

/// One smoothing step scales the difference of two values by exactly
/// `(w - 1) / (w + 1)`, which is `1 - alpha`.
proof fn lemma_step_diff_scales(w: int, p1: Ratio, p2: Ratio, obs: Ratio)
    requires
        w >= 2,
        p1.wf(),
        p2.wf(),
        obs.wf(),
    ensures
        eqv(
            diff_model(step_model(w, p1, obs), step_model(w, p2, obs)),
            mul_model((Ratio { num: w - 1, den: w + 1 }), diff_model(p1, p2)),
        ),
{
    lemma_step_cross_identity(w, p1, p2, obs);
    let s1 = step_model(w, p1, obs);
    let s2 = step_model(w, p2, obs);
    let u = w + 1;
    let v = w - 1;
    let q = obs.den;
    let b1 = p1.den;
    let b2 = p2.den;
    let d = p1.num * p2.den - p2.num * p1.den;
    let k = (w + 1) * (w - 1) * q * q;
    let m = b1 * b2;
    let uu = u * u;
    let qq = q * q;
    assert(diff_model(s1, s2).num == k * d);
    assert(diff_model(s1, s2).den == (s1.den) * (s2.den));
    assert(s1.den == u * b1 * q);
    assert(s2.den == u * b2 * q);
    assert((k * d) * (u * m) == (k * u) * (d * m)) by (nonlinear_arith);
    assert(k * u == uu * (v * qq)) by (nonlinear_arith)
        requires
            k == (w + 1) * (w - 1) * q * q,
            u == w + 1,
            v == w - 1,
            uu == u * u,
            qq == q * q,
    ;
    assert((u * b1 * q) * (u * b2 * q) == uu * (qq * m)) by (nonlinear_arith)
        requires
            uu == u * u,
            qq == q * q,
            m == b1 * b2,
    ;
    assert((v * d) * (uu * (qq * m)) == (uu * (v * qq)) * (d * m)) by (nonlinear_arith);
    assert((k * d) * (u * m) == (v * d) * ((s1.den) * (s2.den)));
    assert(mul_model((Ratio { num: w - 1, den: w + 1 }), diff_model(p1, p2)).num == v * d);
    assert(mul_model((Ratio { num: w - 1, den: w + 1 }), diff_model(p1, p2)).den == u * m);
}

/// Equivalence of ratios carries over a shared factor.
proof fn lemma_eqv_scale(c: Ratio, x: Ratio, y: Ratio)
    requires
        eqv(x, y),
    ensures
        eqv(mul_model(c, x), mul_model(c, y)),
{
    assert((c.num * x.num) * (c.den * y.den) == (c.num * y.num) * (c.den * x.den))
        by (nonlinear_arith)
        requires
            x.num * y.den == y.num * x.den,
    ;
}

/// Equivalence of ratios is transitive through a ratio whose denominator
/// is not zero.
proof fn lemma_eqv_trans(a: Ratio, b: Ratio, c: Ratio)
    requires
        b.den != 0,
        eqv(a, b),
        eqv(b, c),
    ensures
        eqv(a, c),
{
    assert(a.num * c.den * b.den == c.num * a.den * b.den) by (nonlinear_arith)
        requires
            a.num * b.den == b.num * a.den,
            b.num * c.den == c.num * b.den,
    ;
    assert(a.num * c.den == c.num * a.den) by (nonlinear_arith)
        requires
            a.num * c.den * b.den == c.num * a.den * b.den,
            b.den != 0,
    ;
}

/// Unbounded influence of the first observation on the fast engine: two
/// histories that differ in their first observation alone fold to different
/// values, however long they are. The first observation's weight decays
/// exponentially but never reaches zero.
pub proof fn lemma_first_observation_influence(w: int, x1: Ratio, x2: Ratio, rest: Seq<Ratio>)
    requires
        w >= 2,
        x1.wf(),
        x2.wf(),
        all_wf(rest),
        !eqv(x1, x2),
    ensures
        !eqv(ema_fold(w, seq![x1] + rest), ema_fold(w, seq![x2] + rest)),
    decreases rest.len(),
{
    if rest.len() == 0 {
        assert(seq![x1] + rest =~= seq![x1]);
        assert(seq![x2] + rest =~= seq![x2]);
        assert(ema_fold(w, seq![x1]) == x1);
        assert(ema_fold(w, seq![x2]) == x2);
    } else {
        let r0 = rest.drop_last();
        let obs = rest.last();
        assert forall|i: int| 0 <= i < r0.len() implies (#[trigger] r0[i]).wf() by {
            assert(r0[i] == rest[i]);
        }
        lemma_first_observation_influence(w, x1, x2, r0);
        let a1 = seq![x1] + r0;
        let a2 = seq![x2] + r0;
        assert forall|i: int| 0 <= i < a1.len() implies (#[trigger] a1[i]).wf() by {
            if i == 0 {
                assert(a1[i] == x1);
            } else {
                assert(a1[i] == r0[i - 1]);
            }
        }
        assert forall|i: int| 0 <= i < a2.len() implies (#[trigger] a2[i]).wf() by {
            if i == 0 {
                assert(a2[i] == x2);
            } else {
                assert(a2[i] == r0[i - 1]);
            }
        }
        lemma_fold_wf(w, a1);
        lemma_fold_wf(w, a2);
        lemma_step_keeps_distinct(w, ema_fold(w, a1), ema_fold(w, a2), obs);
        assert((seq![x1] + rest).drop_last() =~= a1);
        assert((seq![x2] + rest).drop_last() =~= a2);
        assert((seq![x1] + rest).last() == obs);
        assert((seq![x2] + rest).last() == obs);
        assert((seq![x1] + rest).len() >= 2);
        assert(ema_fold(w, seq![x1] + rest) == step_model(w, ema_fold(w, a1), obs));
        assert(ema_fold(w, seq![x2] + rest) == step_model(w, ema_fold(w, a2), obs));
    }
}

/// The exact weight of the first observation in the fast fold: after `n`
/// further observations, the difference between two folds whose histories
/// differ only in the seed is `((w - 1) / (w + 1))^n` — that is,
/// `(1 - alpha)^n` — times the difference of the seeds.
pub proof fn lemma_first_observation_decay(w: int, x1: Ratio, x2: Ratio, rest: Seq<Ratio>)
    requires
        w >= 2,
        x1.wf(),
        x2.wf(),
        all_wf(rest),
    ensures
        eqv(
            diff_model(ema_fold(w, seq![x1] + rest), ema_fold(w, seq![x2] + rest)),
            mul_model(decay_pow(w, rest.len()), diff_model(x1, x2)),
        ),
    decreases rest.len(),
{
    if rest.len() == 0 {
        assert(seq![x1] + rest =~= seq![x1]);
        assert(seq![x2] + rest =~= seq![x2]);
        assert(ema_fold(w, seq![x1]) == x1);
        assert(ema_fold(w, seq![x2]) == x2);
        assert(mul_model(decay_pow(w, 0), diff_model(x1, x2)) == diff_model(x1, x2));
    } else {
        let n = rest.len();
        let r0 = rest.drop_last();
        let obs = rest.last();
        assert forall|i: int| 0 <= i < r0.len() implies (#[trigger] r0[i]).wf() by {
            assert(r0[i] == rest[i]);
        }
        lemma_first_observation_decay(w, x1, x2, r0);
        let a1 = seq![x1] + r0;
        let a2 = seq![x2] + r0;
        assert forall|i: int| 0 <= i < a1.len() implies (#[trigger] a1[i]).wf() by {
            if i == 0 {
                assert(a1[i] == x1);
            } else {
                assert(a1[i] == r0[i - 1]);
            }
        }
        assert forall|i: int| 0 <= i < a2.len() implies (#[trigger] a2[i]).wf() by {
            if i == 0 {
                assert(a2[i] == x2);
            } else {
                assert(a2[i] == r0[i - 1]);
            }
        }
        lemma_fold_wf(w, a1);
        lemma_fold_wf(w, a2);
        let f1 = ema_fold(w, a1);
        let f2 = ema_fold(w, a2);
        assert((seq![x1] + rest).drop_last() =~= a1);
        assert((seq![x2] + rest).drop_last() =~= a2);
        assert((seq![x1] + rest).last() == obs);
        assert((seq![x2] + rest).last() == obs);
        assert((seq![x1] + rest).len() >= 2);
        assert(ema_fold(w, seq![x1] + rest) == step_model(w, f1, obs));
        assert(ema_fold(w, seq![x2] + rest) == step_model(w, f2, obs));
        let one_step = Ratio { num: w - 1, den: w + 1 };
        let seed_diff = diff_model(x1, x2);
        let tail_weight = decay_pow(w, (n - 1) as nat);
        lemma_step_diff_scales(w, f1, f2, obs);
        lemma_eqv_scale(one_step, diff_model(f1, f2), mul_model(tail_weight, seed_diff));
        vstd::arithmetic::mul::lemma_mul_is_associative(
            one_step.num,
            tail_weight.num,
            seed_diff.num,
        );
        vstd::arithmetic::mul::lemma_mul_is_associative(
            one_step.den,
            tail_weight.den,
            seed_diff.den,
        );
        assert(mul_model(one_step, mul_model(tail_weight, seed_diff)) == mul_model(
            decay_pow(w, n),
            seed_diff,
        ));
        lemma_diff_wf(f1, f2);
        lemma_mul_wf(one_step, diff_model(f1, f2));
        lemma_eqv_trans(
            diff_model(step_model(w, f1, obs), step_model(w, f2, obs)),
            mul_model(one_step, diff_model(f1, f2)),
            mul_model(one_step, mul_model(tail_weight, seed_diff)),
        );
    }
}

} // verus!
