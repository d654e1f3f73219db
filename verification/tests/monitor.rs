use starseed_nn::monitor::{Monitor, Reading, Verdict};
use starseed_nn::scalar::Scalar;

fn reading(loss: f32) -> Reading {
    Reading {
        loss: Scalar::from_bits(loss.to_bits()),
        padded: Scalar::from_bits((loss + 1e-6).to_bits()),
    }
}

fn verdicts(m: &mut Monitor, losses: &[f32]) -> Vec<Verdict> {
    let mut out = Vec::new();
    for &loss in losses {
        if !m.running() {
            break;
        }
        out.push(m.observe(reading(loss)));
    }
    out
}

#[test]
fn early_stopping() {
    // The loss improves once, then is flat and worse: with a patience of 2
    // the loop stops after exactly these three epochs, not after ten.
    let mut m = Monitor::new(10, 2);
    let seen = verdicts(&mut m, &[0.5, 0.5, 0.6, 0.1, 0.1, 0.1, 0.1, 0.1, 0.1, 0.1]);
    assert_eq!(seen, vec![Verdict::Improved, Verdict::Stalled, Verdict::Halted]);
    assert!(!m.running());
    assert!(m.halted());
    assert_eq!(m.seen(), 3);
    assert_eq!(m.best_epoch(), Some(0));
    assert_eq!(m.best_loss().to_bits(), 0.5f32.to_bits());
    assert_eq!(m.bad_epochs(), 2);
}

#[test]
fn a_new_monitor_waits_for_the_first_epoch() {
    let m = Monitor::new(4, 3);
    assert!(m.running());
    assert!(!m.halted());
    assert_eq!(m.seen(), 0);
    assert_eq!(m.bad_epochs(), 0);
    assert_eq!(m.best_epoch(), None);
    assert_eq!(m.best_loss().to_bits(), f32::INFINITY.to_bits());
}

#[test]
fn no_epochs_means_nothing_to_run() {
    let mut m = Monitor::new(0, 3);
    assert!(!m.running());
    assert_eq!(m.observe(reading(0.25)), Verdict::Halted);
    assert_eq!(m.seen(), 0);
    assert_eq!(m.best_epoch(), None);
}

#[test]
fn training_ends_when_the_epochs_are_used_up() {
    let mut m = Monitor::new(3, 5);
    let seen = verdicts(&mut m, &[3.0, 2.0, 1.0, 0.5]);
    assert_eq!(seen, vec![Verdict::Improved, Verdict::Improved, Verdict::Improved]);
    assert!(!m.running());
    assert!(!m.halted());
    assert_eq!(m.best_epoch(), Some(2));
    assert_eq!(m.best_loss().to_bits(), 1.0f32.to_bits());
}

#[test]
fn an_improvement_resets_the_count() {
    let mut m = Monitor::new(10, 2);
    let seen = verdicts(&mut m, &[1.0, 1.0, 0.5, 0.5, 0.5]);
    assert_eq!(
        seen,
        vec![
            Verdict::Improved,
            Verdict::Stalled,
            Verdict::Improved,
            Verdict::Stalled,
            Verdict::Halted
        ]
    );
    assert_eq!(m.best_epoch(), Some(2));
    assert_eq!(m.seen(), 5);
}

#[test]
fn an_improvement_has_to_clear_the_margin() {
    let mut m = Monitor::new(10, 5);
    assert_eq!(m.observe(reading(0.5)), Verdict::Improved);
    // Less than the margin below the best: not an improvement.
    assert_eq!(m.observe(reading(0.5 - 5e-7)), Verdict::Stalled);
    assert_eq!(m.best_loss().to_bits(), 0.5f32.to_bits());
    // More than the margin below: an improvement.
    assert_eq!(m.observe(reading(0.5 - 1e-5)), Verdict::Improved);
    assert_eq!(m.best_epoch(), Some(2));
}

#[test]
fn patience_of_zero_stops_at_the_first_stall() {
    let mut m = Monitor::new(10, 0);
    let seen = verdicts(&mut m, &[1.0, 0.5, 0.5, 0.1]);
    assert_eq!(seen, vec![Verdict::Improved, Verdict::Improved, Verdict::Halted]);
    assert_eq!(m.seen(), 3);
    assert_eq!(m.bad_epochs(), 1);
}

#[test]
fn a_nan_loss_never_improves() {
    let mut m = Monitor::new(10, 2);
    let seen = verdicts(&mut m, &[f32::NAN, f32::NAN, 0.1]);
    assert_eq!(seen, vec![Verdict::Stalled, Verdict::Halted]);
    assert_eq!(m.best_epoch(), None);
    assert_eq!(m.best_loss().to_bits(), f32::INFINITY.to_bits());
}

#[test]
fn an_infinite_loss_does_not_beat_the_start() {
    let mut m = Monitor::new(10, 3);
    assert_eq!(m.observe(reading(f32::INFINITY)), Verdict::Stalled);
    assert_eq!(m.observe(reading(f32::MAX)), Verdict::Improved);
}

#[test]
fn readings_after_the_end_change_nothing() {
    let mut m = Monitor::new(10, 1);
    assert_eq!(m.observe(reading(1.0)), Verdict::Improved);
    assert_eq!(m.observe(reading(2.0)), Verdict::Halted);
    assert_eq!(m.observe(reading(0.0)), Verdict::Halted);
    assert_eq!(m.seen(), 2);
    assert_eq!(m.best_epoch(), Some(0));
    assert_eq!(m.best_loss().to_bits(), 1.0f32.to_bits());
}

#[test]
fn the_best_snapshot_has_the_lowest_loss() {
    let losses = [0.9f32, 0.7, 0.8, 0.3, 0.31, 0.6];
    let mut m = Monitor::new(losses.len(), 10);
    verdicts(&mut m, &losses);
    assert_eq!(m.best_epoch(), Some(3));
    assert_eq!(m.best_loss().to_bits(), 0.3f32.to_bits());
    for loss in losses {
        assert!(!(loss + 1e-6 < f32::from_bits(m.best_loss().to_bits())));
    }
}
