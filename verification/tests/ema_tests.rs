use ema::compute_ema;
use ema::EmaComputation;
use ema::EmaCorrect;
use ema::EmaFast;
use ema::Rat;
use ema::DEFAULT_WINDOW_SIZE;

/// Feeds `1, 2, ..., window_size` and checks the warm-up phase and the first
/// reported value, which both engines agree on.
fn basic_tests<E: EmaComputation>(ema: &mut E) {
    for i in 1..DEFAULT_WINDOW_SIZE {
        ema.update(Rat::from_int(i as i64));
        assert_eq!(None, ema.get_result(), "'None' expected at position {i}");
    }
    ema.update(Rat::from_int(DEFAULT_WINDOW_SIZE as i64));
    assert_eq!(Some(Rat::new(275, 81)), ema.get_result(), "first provided value");
}

#[test]
fn fast_basic_tests() {
    let mut ema_fast = EmaFast::default();
    basic_tests(&mut ema_fast);
    ema_fast.update(Rat::from_int(DEFAULT_WINDOW_SIZE as i64));
    // here is the difference: the evicted first observation still influences this value
    assert_eq!(Some(Rat::new(955, 243)), ema_fast.get_result(), "second provided value");
}

#[test]
fn correct_basic_tests() {
    let mut ema_correct = EmaCorrect::default();
    basic_tests(&mut ema_correct);
    ema_correct.update(Rat::from_int(DEFAULT_WINDOW_SIZE as i64));
    // here is the difference:
    assert_eq!(Some(Rat::new(329, 81)), ema_correct.get_result(), "second provided value");
}

#[test]
fn compare_fast_and_correct() {
    // fast variant
    let secondval_fast = {
        let mut ema_fast = EmaFast::default();
        basic_tests(&mut ema_fast);
        ema_fast.update(Rat::from_int(DEFAULT_WINDOW_SIZE as i64));
        ema_fast.get_result()
    };
    // correct variant
    let secondval_correct = {
        let mut ema_correct = EmaCorrect::default();
        basic_tests(&mut ema_correct);
        ema_correct.update(Rat::from_int(DEFAULT_WINDOW_SIZE as i64));
        ema_correct.get_result()
    };

    // the two computations part ways one observation past the first window
    assert_ne!(
        secondval_fast, secondval_correct,
        "this failure proves that the computation differs between the two algos"
    );
}

#[test]
fn rational_equality_is_of_values() {
    assert_eq!(Rat::new(1, 2), Rat::new(2, 4));
    assert_eq!(Rat::new(-3, 6), Rat::new(-1, 2));
    assert_ne!(Rat::new(1, 2), Rat::new(1, 3));
}

#[test]
fn compute_ema_one_step() {
    // alpha = 2 / 6 = 1/3: 1 + (2 - 1) / 3 == 4/3
    let r = compute_ema(5, Rat::from_int(1), Rat::from_int(2));
    assert_eq!(Rat::new(4, 3), r);
    // alpha = 1/2 for a window of three: 1 + (2 - 1) / 2 == 3/2
    let r = compute_ema(3, Rat::from_int(1), Rat::from_int(2));
    assert_eq!(Rat::new(3, 2), r);
}

#[test]
fn first_value_is_the_seeded_fold() {
    // seed with the first observation, then fold the remaining ones in order:
    // both engines report exactly that value when the window first fills
    let mut expected = Rat::from_int(1);
    for i in 2..=5i64 {
        expected = compute_ema(5, expected, Rat::from_int(i));
    }
    let mut fast = EmaFast::new(5);
    let mut correct = EmaCorrect::new(5);
    for i in 1..=5i64 {
        fast.update(Rat::from_int(i));
        correct.update(Rat::from_int(i));
    }
    assert_eq!(Some(expected), fast.get_result());
    assert_eq!(Some(expected), correct.get_result());
}

#[test]
fn warm_up_smaller_window() {
    let mut fast = EmaFast::new(3);
    let mut correct = EmaCorrect::new(3);
    for i in 1..3i64 {
        fast.update(Rat::from_int(i));
        correct.update(Rat::from_int(i));
        assert_eq!(None, fast.get_result());
        assert_eq!(None, correct.get_result());
    }
    fast.update(Rat::from_int(3));
    correct.update(Rat::from_int(3));
    assert_eq!(Some(Rat::new(9, 4)), fast.get_result());
    assert_eq!(Some(Rat::new(9, 4)), correct.get_result());
}

#[test]
fn windowed_engine_forgets_evicted_observations() {
    // a long stream: the reported value must be recomputable from the
    // newest five observations alone
    let mut engine = EmaCorrect::new(5);
    for i in 1..=50i64 {
        engine.update(Rat::from_int(i));
    }
    let mut expected = Rat::from_int(46);
    for i in 47..=50i64 {
        expected = compute_ema(5, expected, Rat::from_int(i));
    }
    assert_eq!(Some(expected), engine.get_result());
}

#[test]
fn fast_engine_first_observation_keeps_influence() {
    let mut a = EmaFast::new(5);
    let mut b = EmaFast::new(5);
    for v in [1i64, 2, 3, 4, 5] {
        a.update(Rat::from_int(v));
    }
    for v in [2i64, 2, 3, 4, 5] {
        b.update(Rat::from_int(v));
    }
    // the streams differ in their first observation only, and the results differ
    assert_ne!(a.get_result(), b.get_result());
}

#[test]
fn idempotent_read() {
    let mut fast = EmaFast::new(5);
    let mut correct = EmaCorrect::new(5);
    assert_eq!(fast.get_result(), fast.get_result());
    assert_eq!(correct.get_result(), correct.get_result());
    for i in 1..=7i64 {
        fast.update(Rat::from_int(i));
        correct.update(Rat::from_int(i));
        assert_eq!(fast.get_result(), fast.get_result());
        assert_eq!(correct.get_result(), correct.get_result());
    }
}

#[test]
fn availability_never_reverts() {
    let mut fast = EmaFast::new(5);
    let mut correct = EmaCorrect::new(5);
    for i in 1..=5i64 {
        fast.update(Rat::from_int(i));
        correct.update(Rat::from_int(i));
    }
    assert!(fast.get_result().is_some());
    assert!(correct.get_result().is_some());
    for i in 1..=10i64 {
        fast.update(Rat::from_int(i));
        assert!(fast.get_result().is_some());
    }
    for i in 1..=40i64 {
        correct.update(Rat::from_int(i));
        assert!(correct.get_result().is_some());
    }
}

#[test]
fn default_window_size_is_five() {
    let mut d = EmaFast::default();
    let mut n = EmaFast::new(DEFAULT_WINDOW_SIZE);
    let mut dc = EmaCorrect::default();
    let mut nc = EmaCorrect::new(DEFAULT_WINDOW_SIZE);
    for i in 1..=6i64 {
        d.update(Rat::from_int(i));
        n.update(Rat::from_int(i));
        dc.update(Rat::from_int(i));
        nc.update(Rat::from_int(i));
        assert_eq!(d.get_result(), n.get_result());
        assert_eq!(dc.get_result(), nc.get_result());
    }
}
