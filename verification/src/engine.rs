use vstd::prelude::*;

use crate::model::all_wf;
use crate::model::ema_fold;
use crate::model::fast_result_model;
use crate::model::fold_fits;
use crate::model::i64_fits;
use crate::model::lemma_step_wf;
use crate::model::opt_model;
use crate::model::step_fits;
use crate::model::step_model;
use crate::model::window_model;
use crate::model::windowed_result_model;
use crate::rational::Rat;
use crate::rational::Ratio;

verus! {

/// The window size an engine is built with when none is chosen.
pub const DEFAULT_WINDOW_SIZE: usize = 5;

proof fn lemma_wide_products_fit(w: int, p: Ratio, o: Ratio)
    requires
        2 <= w <= 0xffff_ffff_ffff_ffff,
        i64_fits(p.num),
        i64_fits(p.den),
    ensures
        -0x8000_0000_0000_0000_0000_0000_0000_0000 <= (w - 1) * p.num
            <= 0x7fff_ffff_ffff_ffff_ffff_ffff_ffff_ffff,
        -0x8000_0000_0000_0000_0000_0000_0000_0000 <= (w + 1) * p.den
            <= 0x7fff_ffff_ffff_ffff_ffff_ffff_ffff_ffff,
{
    assert(-0x8000_0000_0000_0000_0000_0000_0000_0000 <= (w - 1) * p.num
        <= 0x7fff_ffff_ffff_ffff_ffff_ffff_ffff_ffff) by (nonlinear_arith)
        requires
            1 <= w - 1 <= 0xffff_ffff_ffff_fffe,
            -0x8000_0000_0000_0000 <= p.num <= 0x7fff_ffff_ffff_ffff,
    ;
    assert(-0x8000_0000_0000_0000_0000_0000_0000_0000 <= (w + 1) * p.den
        <= 0x7fff_ffff_ffff_ffff_ffff_ffff_ffff_ffff) by (nonlinear_arith)
        requires
            3 <= w + 1 <= 0x1_0000_0000_0000_0000,
            -0x8000_0000_0000_0000 <= p.den <= 0x7fff_ffff_ffff_ffff,
    ;
}

/// One exponential-smoothing transition, `prev_ema + alpha * (price - prev_ema)`
/// with `alpha = 2 / (window_size + 1)`, computed exactly. Shared by both
/// engines; it knows nothing of windowing or warm-up.
pub fn compute_ema(window_size: usize, prev_ema: Rat, price: Rat) -> (r: Rat)
    requires
        2 <= window_size,
        prev_ema@.wf(),
        price@.wf(),
        step_fits(window_size as int, prev_ema@, price@),
    ensures
        r@ == step_model(window_size as int, prev_ema@, price@),
        r@.wf(),
{
    proof {
        lemma_wide_products_fit(window_size as int, prev_ema@, price@);
        lemma_step_wf(window_size as int, prev_ema@, price@);
    }
    let w: i128 = window_size as i128;
    let t1: i128 = (w - 1) * (prev_ema.num as i128) * (price.den as i128);
    let t2: i128 = 2 * (price.num as i128) * (prev_ema.den as i128);
    let num: i128 = t1 + t2;
    let den: i128 = (w + 1) * (prev_ema.den as i128) * (price.den as i128);
    Rat { num: num as i64, den: den as i64 }
}

/// The capability both engines implement: feed one observation at a time,
/// read the current average once enough have been seen.
pub trait EmaComputation: Sized {
    /// The engine's internal invariant.
    spec fn wf(&self) -> bool;

    /// The window size the engine was built with.
    spec fn window_size_spec(&self) -> int;

    /// Every observation the engine has been fed, oldest first.
    spec fn obs_seen(&self) -> Seq<Ratio>;

    /// What `get_result` reports, as a function of the state alone.
    spec fn result_model(&self) -> Option<Ratio>;

    /// The machine-side capacity bound under which one more observation can
    /// be absorbed without the exact arithmetic leaving i64.
    spec fn can_accept(&self, obs: Ratio) -> bool;

    /// The current average, or nothing while fewer than `window_size`
    /// observations have been seen. A pure read: the result is a function
    /// of the state alone, so repeated calls return the same value.
    fn get_result(&self) -> (r: Option<Rat>)
        requires
            self.wf(),
        ensures
            opt_model(r) == self.result_model(),
    ;

    /// Records one observation. The result becomes available exactly when
    /// the `window_size`-th observation arrives, and never goes away again.
    fn update(&mut self, new_value: Rat)
        requires
            old(self).wf(),
            new_value@.wf(),
            old(self).can_accept(new_value@),
        ensures
            final(self).wf(),
            final(self).window_size_spec() == old(self).window_size_spec(),
            final(self).obs_seen() == old(self).obs_seen().push(new_value@),
            (final(self).result_model() is Some <==> final(self).obs_seen().len()
                >= final(self).window_size_spec()),
            (old(self).result_model() is Some ==> final(self).result_model() is Some),
    ;
}

/// The incremental engine: one smoothing step per update, folding the whole
/// past into a single running value. Observations that have left the nominal
/// window keep an exponentially decaying, never-zero influence on the result.
pub struct EmaFast {
    window_size: usize,
    result: Option<Rat>,
    last: Rat,
    count: usize,
    seen: Ghost<Seq<Ratio>>,
}

impl EmaFast {
    /// A fresh engine for the given window size.
    pub fn new(window_size: usize) -> (r: EmaFast)
        requires
            window_size >= 2,
        ensures
            r.wf(),
            r.window_size_spec() == window_size as int,
            r.obs_seen() == Seq::<Ratio>::empty(),
            r.result_model() is None,
    {
        EmaFast {
            window_size,
            result: None,
            last: Rat { num: 0, den: 1 },
            count: 0,
            seen: Ghost(Seq::empty()),
        }
    }
}

impl Default for EmaFast {
    fn default() -> (r: EmaFast)
        ensures
            r.wf(),
            r.window_size_spec() == DEFAULT_WINDOW_SIZE as int,
            r.obs_seen() == Seq::<Ratio>::empty(),
            r.result_model() is None,
    {
        EmaFast::new(DEFAULT_WINDOW_SIZE)
    }
}

impl EmaComputation for EmaFast {
    closed spec fn wf(&self) -> bool {
        &&& self.window_size >= 2
        &&& self.count == self.seen@.len()
        &&& all_wf(self.seen@)
        &&& self.last@.wf()
        &&& (self.seen@.len() > 0 ==> self.last@ == ema_fold(
            self.window_size as int,
            self.seen@,
        ))
        &&& self.result == (if self.seen@.len() >= self.window_size {
            Some(self.last)
        } else {
            None::<Rat>
        })
    }

    closed spec fn window_size_spec(&self) -> int {
        self.window_size as int
    }

    closed spec fn obs_seen(&self) -> Seq<Ratio> {
        self.seen@
    }

    open spec fn result_model(&self) -> Option<Ratio> {
        fast_result_model(self.window_size_spec(), self.obs_seen())
    }

    open spec fn can_accept(&self, obs: Ratio) -> bool {
        &&& self.obs_seen().len() < usize::MAX
        &&& (self.obs_seen().len() == 0 || step_fits(
            self.window_size_spec(),
            ema_fold(self.window_size_spec(), self.obs_seen()),
            obs,
        ))
    }

    fn get_result(&self) -> (r: Option<Rat>) {
        self.result
    }

    fn update(&mut self, new_value: Rat) {
        if self.count == 0 {
            self.last = new_value;
        } else {
            self.last = compute_ema(self.window_size, self.last, new_value);
        }
        self.count = self.count + 1;
        self.result = if self.count < self.window_size {
            None
        } else {
            Some(self.last)
        };
        self.seen = Ghost(self.seen@.push(new_value@));
        proof {
            let w = self.window_size as int;
            let s = self.seen@;
            assert forall|i: int| 0 <= i < s.len() implies (#[trigger] s[i]).wf() by {
                if i < s.len() - 1 {
                    assert(s[i] == old(self).seen@[i]);
                } else {
                    assert(s[i] == new_value@);
                }
            }
            if old(self).seen@.len() == 0 {
                assert(ema_fold(w, s) == s[0]);
            } else {
                assert(s.drop_last() =~= old(self).seen@);
                assert(ema_fold(w, s) == step_model(w, ema_fold(w, s.drop_last()), s.last()));
            }
        }
    }
}

/// The windowed engine: keeps the newest `window_size` observations, oldest
/// first, and recomputes the average from that window alone on every update.
/// Evicted observations have no influence on the reported value.
pub struct EmaCorrect {
    window_size: usize,
    result: Option<Rat>,
    window: Vec<Rat>,
    seen: Ghost<Seq<Ratio>>,
}

impl EmaCorrect {
    /// The models of the observations currently held in the window.
    pub closed spec fn window_spec(&self) -> Seq<Ratio> {
        self.window@.map_values(|r: Rat| r@)
    }

    /// A fresh engine for the given window size.
    pub fn new(window_size: usize) -> (r: EmaCorrect)
        requires
            window_size >= 2,
        ensures
            r.wf(),
            r.window_size_spec() == window_size as int,
            r.obs_seen() == Seq::<Ratio>::empty(),
            r.result_model() is None,
            r.window_spec() == Seq::<Ratio>::empty(),
    {
        let r = EmaCorrect { window_size, result: None, window: Vec::new(), seen: Ghost(Seq::empty()) };
        proof {
            assert(r.window@.map_values(|q: Rat| q@) =~= Seq::<Ratio>::empty());
        }
        r
    }
}

impl Default for EmaCorrect {
    fn default() -> (r: EmaCorrect)
        ensures
            r.wf(),
            r.window_size_spec() == DEFAULT_WINDOW_SIZE as int,
            r.obs_seen() == Seq::<Ratio>::empty(),
            r.result_model() is None,
            r.window_spec() == Seq::<Ratio>::empty(),
    {
        EmaCorrect::new(DEFAULT_WINDOW_SIZE)
    }
}

impl EmaComputation for EmaCorrect {
    closed spec fn wf(&self) -> bool {
        &&& self.window_size >= 2
        &&& all_wf(self.seen@)
        &&& self.window_spec() == window_model(self.window_size as int, self.seen@)
        &&& (match self.result {
            Some(v) => self.seen@.len() >= self.window_size && v@ == ema_fold(
                self.window_size as int,
                window_model(self.window_size as int, self.seen@),
            ),
            None => self.seen@.len() < self.window_size,
        })
    }

    closed spec fn window_size_spec(&self) -> int {
        self.window_size as int
    }

    closed spec fn obs_seen(&self) -> Seq<Ratio> {
        self.seen@
    }

    open spec fn result_model(&self) -> Option<Ratio> {
        windowed_result_model(self.window_size_spec(), self.obs_seen())
    }

    open spec fn can_accept(&self, obs: Ratio) -> bool {
        let next = window_model(self.window_size_spec(), self.obs_seen().push(obs));
        next.len() >= self.window_size_spec() ==> fold_fits(self.window_size_spec(), next)
    }

    fn get_result(&self) -> (r: Option<Rat>) {
        self.result
    }

    fn update(&mut self, new_value: Rat)
        ensures
            final(self).window_spec() == window_model(
                final(self).window_size_spec(),
                final(self).obs_seen(),
            ),
            final(self).window_spec().len() <= final(self).window_size_spec(),
    {
        let full = self.window.len() == self.window_size;
        if full {
            self.window.remove(0);
        }
        self.window.push(new_value);
        self.seen = Ghost(self.seen@.push(new_value@));
        proof {
            let w = self.window_size as int;
            let prior = old(self).seen@;
            let hist = self.seen@;
            let oldview = old(self).window@.map_values(|q: Rat| q@);
            let nv = self.window@.map_values(|q: Rat| q@);
            assert forall|i: int| 0 <= i < hist.len() implies (#[trigger] hist[i]).wf() by {
                if i < hist.len() - 1 {
                    assert(hist[i] == prior[i]);
                } else {
                    assert(hist[i] == new_value@);
                }
            }
            if full {
                // the oldest observation left, the newest came in
                assert(oldview.len() == w);
                assert(prior.len() >= w);
                assert(old(self).window@.remove(0) =~= old(self).window@.skip(1));
                assert forall|i: int| 0 <= i < nv.len() implies nv[i] == window_model(w, hist)[i] by {
                    if i < nv.len() - 1 {
                        assert(self.window@[i] == old(self).window@[i + 1]);
                        assert(nv[i] == oldview[i + 1]);
                        assert(oldview[i + 1] == window_model(w, prior)[i + 1]);
                        if prior.len() > w {
                            assert(window_model(w, prior)[i + 1] == prior[prior.len() - w + i + 1]);
                        }
                        assert(window_model(w, hist)[i] == hist[hist.len() - w + i]);
                        assert(hist[hist.len() - w + i] == prior[prior.len() - w + i + 1]);
                    } else {
                        assert(nv[i] == new_value@);
                        assert(window_model(w, hist)[i] == hist[hist.len() - 1]);
                    }
                }
                assert(nv =~= window_model(w, hist));
            } else {
                assert(oldview.len() < w);
                assert(prior.len() == oldview.len());
                assert forall|i: int| 0 <= i < nv.len() implies nv[i] == hist[i] by {
                    if i < nv.len() - 1 {
                        assert(self.window@[i] == old(self).window@[i]);
                        assert(nv[i] == oldview[i]);
                        assert(oldview[i] == window_model(w, prior)[i]);
                    } else {
                        assert(nv[i] == new_value@);
                    }
                }
                assert(nv =~= hist);
                assert(window_model(w, hist) == hist);
            }
            assert forall|i: int| 0 <= i < nv.len() implies (#[trigger] nv[i]).wf() by {
                assert(nv[i] == window_model(w, hist)[i]);
                if hist.len() <= w {
                    assert(window_model(w, hist)[i] == hist[i]);
                } else {
                    assert(window_model(w, hist)[i] == hist[hist.len() - w + i]);
                }
            }
        }
        if self.window.len() < self.window_size {
            self.result = None;
        } else {
            let ghost vm = self.window@.map_values(|q: Rat| q@);
            proof {
                assert(vm == window_model(self.window_size as int, self.seen@));
                assert(fold_fits(self.window_size as int, vm));
            }
            let mut acc = self.window[0];
            let mut i: usize = 1;
            proof {
                assert(vm.take(1) =~= seq![vm[0]]);
                assert(acc@ == vm[0]);
            }
            while i < self.window.len()
                invariant
                    1 <= i as int <= vm.len(),
                    2 <= self.window_size,
                    vm == self.window@.map_values(|q: Rat| q@),
                    vm.len() == self.window_size as int,
                    all_wf(vm),
                    fold_fits(self.window_size as int, vm),
                    acc@ == ema_fold(self.window_size as int, vm.take(i as int)),
                    acc@.wf(),
                decreases vm.len() - i as int,
            {
                proof {
                    let w = self.window_size as int;
                    assert(step_fits(w, ema_fold(w, vm.take(i as int)), vm[i as int]));
                    assert((self.window@[i as int])@ == vm[i as int]);
                }
                let x = self.window[i];
                acc = compute_ema(self.window_size, acc, x);
                proof {
                    let w = self.window_size as int;
                    assert(vm.take(i as int + 1).drop_last() =~= vm.take(i as int));
                    assert(vm.take(i as int + 1).last() == vm[i as int]);
                    assert(acc@ == ema_fold(w, vm.take(i as int + 1)));
                }
                i = i + 1;
            }
            proof {
                assert(vm.take(vm.len() as int) =~= vm);
            }
            self.result = Some(acc);
        }
    }
}

} // verus!
