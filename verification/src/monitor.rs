//! The training loop as a state machine over epochs: which snapshot is the
//! best so far, and when to stop.
//!
//! The caller trains one epoch, measures the validation loss, and reports
//! it; the monitor answers whether the snapshot is to be kept and whether
//! another epoch is due.

use crate::scalar::Scalar;
use vstd::prelude::*;

verus! {

/// The validation loss of one epoch, and the same loss with the margin added
/// to it, which is what has to fall below the best loss to count as an
/// improvement.
#[derive(Clone, Copy, Debug, PartialEq, Eq, Structural)]
pub struct Reading {
    pub loss: Scalar,
    pub padded: Scalar,
}

/// What the monitor makes of a reading.
#[derive(Clone, Copy, Debug, PartialEq, Eq, Structural)]
pub enum Verdict {
    /// The loss improved: the epoch's snapshot is the best one now, and is to
    /// be saved as a checkpoint.
    Improved,
    /// The loss did not improve, and patience is not exhausted.
    Stalled,
    /// The loss did not improve and patience is exhausted, or the reading
    /// came after the end of training: nothing changes any more.
    Halted,
}

/// The state of the training loop, as numbers.
pub struct MonitorState {
    /// The most epochs that will be run.
    pub epochs: nat,
    /// The number of epochs without improvement, in a row, that end training.
    pub patience: nat,
    /// The number of epochs already reported.
    pub seen: nat,
    /// The loss of the best snapshot; infinity before the first improvement.
    pub best_loss: Scalar,
    /// The epoch whose snapshot is the best, counted from zero; `None` while
    /// the best is still the initial network.
    pub best_epoch: Option<nat>,
    /// The number of epochs since the last improvement.
    pub bad_epochs: nat,
    /// Whether patience ran out.
    pub halted: bool,
}

impl MonitorState {
    /// The state before the first epoch.
    pub open spec fn start(epochs: nat, patience: nat) -> MonitorState {
        MonitorState {
            epochs,
            patience,
            seen: 0,
            best_loss: Scalar::spec_infinity(),
            best_epoch: None,
            bad_epochs: 0,
            halted: false,
        }
    }

    /// Whether another epoch is due.
    pub open spec fn running(self) -> bool {
        !self.halted && self.seen < self.epochs
    }

    /// Whether a reading improves on the best loss: its padded loss is
    /// strictly less.
    pub open spec fn improves(self, reading: Reading) -> bool {
        reading.padded.spec_lt(self.best_loss)
    }

    /// The state after one more reading.
    pub open spec fn step(self, reading: Reading) -> MonitorState {
        if !self.running() {
            self
        } else if self.improves(reading) {
            MonitorState {
                seen: self.seen + 1,
                best_loss: reading.loss,
                best_epoch: Some(self.seen),
                bad_epochs: 0,
                ..self
            }
        } else {
            MonitorState {
                seen: self.seen + 1,
                bad_epochs: self.bad_epochs + 1,
                halted: self.bad_epochs + 1 >= self.patience,
                ..self
            }
        }
    }

    /// The verdict on one more reading.
    pub open spec fn verdict(self, reading: Reading) -> Verdict {
        if !self.running() {
            Verdict::Halted
        } else if self.improves(reading) {
            Verdict::Improved
        } else if self.bad_epochs + 1 >= self.patience {
            Verdict::Halted
        } else {
            Verdict::Stalled
        }
    }

    /// The state after a sequence of readings, oldest first.
    pub open spec fn run(self, readings: Seq<Reading>) -> MonitorState
        decreases readings.len(),
    {
        if readings.len() == 0 {
            self
        } else {
            self.run(readings.drop_last()).step(readings.last())
        }
    }

    /// The number of readings without improvement that end training from
    /// here: what is left of patience, and at least one.
    pub open spec fn stalls_left(self) -> nat {
        if self.patience > self.bad_epochs + 1 {
            (self.patience - self.bad_epochs) as nat
        } else {
            1
        }
    }

    /// What holds of every state that the loop reaches.
    pub open spec fn wf(self) -> bool {
        &&& self.seen <= self.epochs
        &&& self.bad_epochs <= self.seen
        &&& self.halted ==> self.bad_epochs >= self.patience && self.bad_epochs >= 1
        &&& !self.halted ==> self.bad_epochs < self.patience || self.bad_epochs == 0
        &&& self.best_epoch matches Some(e) ==> e < self.seen
    }
}

/// The monitor of one training run.
pub struct Monitor {
    epochs: usize,
    patience: usize,
    seen: usize,
    best_loss: Scalar,
    best_epoch: Option<usize>,
    bad_epochs: usize,
    halted: bool,
}

impl View for Monitor {
    type V = MonitorState;

    closed spec fn view(&self) -> MonitorState {
        MonitorState {
            epochs: self.epochs as nat,
            patience: self.patience as nat,
            seen: self.seen as nat,
            best_loss: self.best_loss,
            best_epoch: match self.best_epoch {
                Some(e) => Some(e as nat),
                None => None,
            },
            bad_epochs: self.bad_epochs as nat,
            halted: self.halted,
        }
    }
}

impl Monitor {
    #[verifier::type_invariant]
    spec fn inv(self) -> bool {
        self@.wf()
    }

    /// A monitor for at most `epochs` epochs that stops once `patience`
    /// epochs in a row have not improved the loss.
    pub fn new(epochs: usize, patience: usize) -> (m: Monitor)
        ensures
            m@ == MonitorState::start(epochs as nat, patience as nat),
    {
        Monitor {
            epochs,
            patience,
            seen: 0,
            best_loss: Scalar::infinity(),
            best_epoch: None,
            bad_epochs: 0,
            halted: false,
        }
    }

    /// Whether another epoch is due.
    pub fn running(&self) -> (r: bool)
        ensures
            r == self@.running(),
    {
        !self.halted && self.seen < self.epochs
    }

    /// The number of epochs reported so far.
    pub fn seen(&self) -> (r: usize)
        ensures
            r == self@.seen,
    {
        self.seen
    }

    /// The loss of the best snapshot; infinity before the first improvement.
    pub fn best_loss(&self) -> (r: Scalar)
        ensures
            r == self@.best_loss,
    {
        self.best_loss
    }

    /// The epoch whose snapshot is the best, counted from zero.
    pub fn best_epoch(&self) -> (r: Option<usize>)
        ensures
            match r {
                Some(e) => self@.best_epoch == Some(e as nat),
                None => self@.best_epoch.is_none(),
            },
    {
        self.best_epoch
    }

    /// The number of epochs since the last improvement.
    pub fn bad_epochs(&self) -> (r: usize)
        ensures
            r == self@.bad_epochs,
    {
        self.bad_epochs
    }

    /// Whether patience ran out.
    pub fn halted(&self) -> (r: bool)
        ensures
            r == self@.halted,
    {
        self.halted
    }

    /// Takes the reading of the epoch that was just trained, and says what
    /// it means for the run.
    pub fn observe(&mut self, reading: Reading) -> (v: Verdict)
        ensures
            final(self)@ == old(self)@.step(reading),
            v == old(self)@.verdict(reading),
            final(self)@.wf(),
    {
        proof {
            use_type_invariant(&*self);
        }
        if self.halted || self.seen >= self.epochs {
            Verdict::Halted
        } else if reading.padded.lt(self.best_loss) {
            *self = Monitor {
                epochs: self.epochs,
                patience: self.patience,
                seen: self.seen + 1,
                best_loss: reading.loss,
                best_epoch: Some(self.seen),
                bad_epochs: 0,
                halted: false,
            };
            Verdict::Improved
        } else {
            let bad_epochs: usize = self.bad_epochs + 1;
            let halted = bad_epochs >= self.patience;
            *self = Monitor {
                epochs: self.epochs,
                patience: self.patience,
                seen: self.seen + 1,
                best_loss: self.best_loss,
                best_epoch: self.best_epoch,
                bad_epochs,
                halted,
            };
            if halted {
                Verdict::Halted
            } else {
                Verdict::Stalled
            }
        }
    }
}

/// Readings lead from a well-formed state to well-formed states, and change
/// neither the budget of epochs nor the patience.
pub proof fn lemma_run_wf(s: MonitorState, readings: Seq<Reading>)
    requires
        s.wf(),
    ensures
        s.run(readings).wf(),
        s.run(readings).epochs == s.epochs,
        s.run(readings).patience == s.patience,
        s.run(readings).seen <= s.seen + readings.len(),
        s.run(readings).running() ==> s.run(readings).seen == s.seen + readings.len(),
        !s.running() ==> s.run(readings) == s,
    decreases readings.len(),
{
    if readings.len() > 0 {
        lemma_run_wf(s, readings.drop_last());
    }
}

/// The state after the first `k` of a sequence of readings that all fail to
/// improve on the best loss of a running state `s`.
proof fn lemma_stalls(s: MonitorState, readings: Seq<Reading>, k: nat)
    requires
        s.wf(),
        s.running(),
        k <= readings.len() <= s.stalls_left(),
        s.seen + readings.len() <= s.epochs,
        forall|i: int| 0 <= i < readings.len() ==> !s.improves(#[trigger] readings[i]),
    ensures
        s.run(readings.take(k as int)) == (MonitorState {
            seen: s.seen + k,
            bad_epochs: s.bad_epochs + k,
            halted: k >= s.stalls_left(),
            ..s
        }),
    decreases k,
{
    let prefix = readings.take(k as int);
    if k > 0 {
        lemma_stalls(s, readings, (k - 1) as nat);
        assert(prefix.drop_last() == readings.take(k - 1));
        assert(prefix.last() == readings[k - 1]);
    }
}

/// Early stopping: from a running state, as many readings in a row without
/// improvement as are left of patience (at least one) end training exactly
/// with the last of them, and not before. The best snapshot stays what it
/// was.
pub proof fn lemma_halts_when_patience_runs_out(s: MonitorState, readings: Seq<Reading>)
    requires
        s.wf(),
        s.running(),
        readings.len() == s.stalls_left(),
        s.seen + readings.len() <= s.epochs,
        forall|i: int| 0 <= i < readings.len() ==> !s.improves(#[trigger] readings[i]),
    ensures
        forall|k: int| 0 <= k < readings.len() ==> (#[trigger] s.run(readings.take(k))).running(),
        s.run(readings).halted,
        !s.run(readings).running(),
        s.run(readings).seen == s.seen + readings.len(),
        s.run(readings).best_loss == s.best_loss,
        s.run(readings).best_epoch == s.best_epoch,
{
    assert forall|k: int| 0 <= k < readings.len() implies (#[trigger] s.run(
        readings.take(k),
    )).running() by {
        lemma_stalls(s, readings, k as nat);
    }
    lemma_stalls(s, readings, readings.len());
    assert(readings.take(readings.len() as int) == readings);
}

/// Whether the padding of a reading is sound: adding the margin did not make
/// the loss smaller.
pub open spec fn sound(reading: Reading) -> bool {
    reading.padded.spec_is_nan() || reading.loss.spec_le(reading.padded)
}

/// The best snapshot is the lowest one seen: after any readings with sound
/// padding, no reading that was taken would still improve on the best loss,
/// and the best loss is the loss of the best epoch.
pub proof fn lemma_best_is_lowest(epochs: nat, patience: nat, readings: Seq<Reading>)
    requires
        forall|i: int| 0 <= i < readings.len() ==> sound(#[trigger] readings[i]),
    ensures
        ({
            let end = MonitorState::start(epochs, patience).run(readings);
            &&& end.seen <= readings.len()
            &&& forall|i: int| 0 <= i < end.seen ==> !end.improves(#[trigger] readings[i])
            &&& match end.best_epoch {
                Some(e) => e < end.seen && end.best_loss == readings[e as int].loss,
                None => end.best_loss == Scalar::spec_infinity(),
            }
            &&& !end.best_loss.spec_is_nan()
        }),
    decreases readings.len(),
{
    let start = MonitorState::start(epochs, patience);
    lemma_run_wf(start, readings);
    if readings.len() > 0 {
        let before = start.run(readings.drop_last());
        lemma_best_is_lowest(epochs, patience, readings.drop_last());
        lemma_run_wf(start, readings.drop_last());
        let end = before.step(readings.last());
        assert forall|i: int| 0 <= i < end.seen implies !end.improves(#[trigger] readings[i]) by {
            if i < before.seen {
                assert(readings.drop_last()[i] == readings[i]);
                assert(!before.improves(readings[i]));
            }
        }
        if let Some(e) = before.best_epoch {
            assert(readings.drop_last()[e as int] == readings[e as int]);
        }
    }
}

} // verus!
