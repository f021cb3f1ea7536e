//! The two-phase executor: every file is first moved to a temporary path in
//! its own directory, and only when all are parked is each moved to its final
//! path. A failure in either phase is followed by the moves that put the
//! files back: after a failed staging move the parked files go back, last
//! first; after a failed commit move the committed files go back first, in the
//! order of the batch, and then the parked ones.
//!
//! The executor moves nothing itself. It hands out one [`Move`] at a time and
//! is told how that move went.

use vstd::prelude::*;
use crate::batch::{entry_views, EntryView, Move, MoveView, RenameEntry};

verus! {

/// Where a run stands. The first number is the position in the batch of the
/// entry that the next move concerns; in `Unstaging`, which walks backwards,
/// it is one more than that position.
#[derive(Clone, Copy, PartialEq, Eq, Structural, Debug)]
pub enum Phase {
    /// Moving `origin` to `temp`, front to back.
    Staging(usize),
    /// A staging move failed: moving `temp` back to `origin`, back to front.
    Unstaging(usize),
    /// Moving `temp` to `target`, front to back.
    Committing(usize),
    /// A commit move failed at the second position: moving what was
    /// committed before it back from `target` to `origin`, front to back.
    Reverting(usize, usize),
    /// Then moving what is still parked back from `temp` to `origin`, front
    /// to back.
    Restoring(usize),
    Finished,
}

/// The move that stopped a run.
#[derive(Debug, PartialEq, Eq)]
pub struct Failure {
    /// Whether it was a commit move (`temp` to `target`) rather than a staging
    /// move (`origin` to `temp`).
    pub committing: bool,
    /// Position of the entry in the batch.
    pub position: usize,
    /// What the caller said went wrong.
    pub error: String,
}

pub struct FailureView {
    pub committing: bool,
    pub position: nat,
    pub error: Seq<char>,
}

impl View for Failure {
    type V = FailureView;

    open spec fn view(&self) -> FailureView {
        FailureView {
            committing: self.committing,
            position: self.position as nat,
            error: self.error@,
        }
    }
}

/// How a run ended.
#[derive(Debug, PartialEq, Eq)]
pub enum Outcome {
    /// The batch was empty: nothing was asked of the filesystem.
    NothingToDo,
    /// Every file is at its final path.
    Committed,
    /// A staging move failed; what had been parked was moved back.
    StageFailed { position: usize, origin: String, temp: String, error: String },
    /// A commit move failed; the files were moved back as far as possible.
    CommitFailed { position: usize, temp: String, target: String, error: String },
}

pub enum OutcomeView {
    NothingToDo,
    Committed,
    StageFailed { position: nat, origin: Seq<char>, temp: Seq<char>, error: Seq<char> },
    CommitFailed { position: nat, temp: Seq<char>, target: Seq<char>, error: Seq<char> },
}

impl View for Outcome {
    type V = OutcomeView;

    open spec fn view(&self) -> OutcomeView {
        match self {
            Outcome::NothingToDo => OutcomeView::NothingToDo,
            Outcome::Committed => OutcomeView::Committed,
            Outcome::StageFailed { position, origin, temp, error } => OutcomeView::StageFailed {
                position: *position as nat,
                origin: origin@,
                temp: temp@,
                error: error@,
            },
            Outcome::CommitFailed { position, temp, target, error } => OutcomeView::CommitFailed {
                position: *position as nat,
                temp: temp@,
                target: target@,
                error: error@,
            },
        }
    }
}

/// The state of a run as a mathematical value.
pub struct ExecutorView {
    pub batch: Seq<EntryView>,
    pub phase: Phase,
    pub failure: Option<FailureView>,
}

impl ExecutorView {
    /// The state before the first move.
    pub open spec fn start(batch: Seq<EntryView>) -> ExecutorView {
        ExecutorView {
            batch,
            phase: if batch.len() == 0 {
                Phase::Finished
            } else {
                Phase::Staging(0)
            },
            failure: None,
        }
    }

    /// The move that is to be made next, if the run is not over.
    pub open spec fn request(self) -> Option<MoveView> {
        let n = self.batch.len();
        match self.phase {
            Phase::Staging(k) => if k < n {
                Some(MoveView { from: self.batch[k as int].origin, to: self.batch[k as int].temp })
            } else {
                None
            },
            Phase::Unstaging(r) => if 0 < r <= n {
                Some(MoveView { from: self.batch[r - 1].temp, to: self.batch[r - 1].origin })
            } else {
                None
            },
            Phase::Committing(k) => if k < n {
                Some(MoveView { from: self.batch[k as int].temp, to: self.batch[k as int].target })
            } else {
                None
            },
            Phase::Reverting(i, f) => if i < f <= n {
                Some(MoveView { from: self.batch[i as int].target, to: self.batch[i as int].origin })
            } else {
                None
            },
            Phase::Restoring(c) => if c < n {
                Some(MoveView { from: self.batch[c as int].temp, to: self.batch[c as int].origin })
            } else {
                None
            },
            Phase::Finished => None,
        }
    }

    /// Whether nothing more is asked for.
    pub open spec fn finished(self) -> bool {
        self.request() is None
    }

    /// The phase that follows when the pending move went as `moved` says.
    pub open spec fn next_phase(self, moved: bool) -> Phase {
        let n = self.batch.len();
        match self.phase {
            Phase::Staging(k) => if moved {
                if k + 1 < n {
                    Phase::Staging((k + 1) as usize)
                } else {
                    Phase::Committing(0)
                }
            } else if k == 0 {
                Phase::Finished
            } else {
                Phase::Unstaging(k)
            },
            Phase::Unstaging(r) => if r <= 1 {
                Phase::Finished
            } else {
                Phase::Unstaging((r - 1) as usize)
            },
            Phase::Committing(k) => if moved {
                if k + 1 < n {
                    Phase::Committing((k + 1) as usize)
                } else {
                    Phase::Finished
                }
            } else if k == 0 {
                Phase::Restoring(0)
            } else {
                Phase::Reverting(0, k)
            },
            Phase::Reverting(i, f) => if i + 1 < f {
                Phase::Reverting((i + 1) as usize, f)
            } else {
                Phase::Restoring(f)
            },
            Phase::Restoring(c) => if c + 1 < n {
                Phase::Restoring((c + 1) as usize)
            } else {
                Phase::Finished
            },
            Phase::Finished => Phase::Finished,
        }
    }

    /// Whether a failed move at this point stops the run. Moves that put
    /// files back are attempted one after the other whatever becomes of them.
    pub open spec fn forward(self) -> bool {
        self.phase is Staging || self.phase is Committing
    }

    /// The state after the pending move was attempted. `moved` says whether
    /// it succeeded, `error` what went wrong if it did not. With no move
    /// pending the state stays as it is.
    pub open spec fn step(self, moved: bool, error: Seq<char>) -> ExecutorView {
        if self.request() is None {
            self
        } else {
            ExecutorView {
                batch: self.batch,
                phase: self.next_phase(moved),
                failure: if self.forward() && !moved {
                    Some(
                        FailureView {
                            committing: self.phase is Committing,
                            position: match self.phase {
                                Phase::Staging(k) => k as nat,
                                Phase::Committing(k) => k as nat,
                                _ => 0,
                            },
                            error,
                        },
                    )
                } else {
                    self.failure
                },
            }
        }
    }

    /// How the run ended, once it is over.
    pub open spec fn outcome(self) -> Option<OutcomeView> {
        if !self.finished() {
            None
        } else {
            match self.failure {
                Some(f) => if f.position < self.batch.len() {
                    let e = self.batch[f.position as int];
                    if f.committing {
                        Some(
                            OutcomeView::CommitFailed {
                                position: f.position,
                                temp: e.temp,
                                target: e.target,
                                error: f.error,
                            },
                        )
                    } else {
                        Some(
                            OutcomeView::StageFailed {
                                position: f.position,
                                origin: e.origin,
                                temp: e.temp,
                                error: f.error,
                            },
                        )
                    }
                } else {
                    None
                },
                None => if self.batch.len() == 0 {
                    Some(OutcomeView::NothingToDo)
                } else {
                    Some(OutcomeView::Committed)
                },
            }
        }
    }
}

/// A run of the two-phase executor over one batch.
pub struct Executor {
    batch: Vec<RenameEntry>,
    phase: Phase,
    failure: Option<Failure>,
}

impl View for Executor {
    type V = ExecutorView;

    closed spec fn view(&self) -> ExecutorView {
        ExecutorView {
            batch: entry_views(self.batch@),
            phase: self.phase,
            failure: match self.failure {
                Some(f) => Some(f@),
                None => None,
            },
        }
    }
}

impl Executor {
    /// A run over `batch`, before its first move. An empty batch is over at
    /// once.
    pub fn new(batch: Vec<RenameEntry>) -> (run: Executor)
        ensures
            run@ == ExecutorView::start(entry_views(batch@)),
    {
        let phase = if batch.len() == 0 {
            Phase::Finished
        } else {
            Phase::Staging(0)
        };
        Executor { batch, phase, failure: None }
    }

    /// The move to make next, or `None` when the run is over.
    pub fn request(&self) -> (next: Option<Move>)
        ensures
            match next {
                Some(m) => self@.request() == Some(m@),
                None => self@.request() is None,
            },
    {
        let n = self.batch.len();
        match self.phase {
            Phase::Staging(k) => if k < n {
                let e = &self.batch[k];
                Some(Move { from: e.origin.clone(), to: e.temp.clone() })
            } else {
                None
            },
            Phase::Unstaging(r) => if 0 < r && r <= n {
                let e = &self.batch[r - 1];
                Some(Move { from: e.temp.clone(), to: e.origin.clone() })
            } else {
                None
            },
            Phase::Committing(k) => if k < n {
                let e = &self.batch[k];
                Some(Move { from: e.temp.clone(), to: e.target.clone() })
            } else {
                None
            },
            Phase::Reverting(i, f) => if i < f && f <= n {
                let e = &self.batch[i];
                Some(Move { from: e.target.clone(), to: e.origin.clone() })
            } else {
                None
            },
            Phase::Restoring(c) => if c < n {
                let e = &self.batch[c];
                Some(Move { from: e.temp.clone(), to: e.origin.clone() })
            } else {
                None
            },
            Phase::Finished => None,
        }
    }

    /// Whether the run is over.
    pub fn is_finished(&self) -> (done: bool)
        ensures
            done == self@.finished(),
    {
        let n = self.batch.len();
        match self.phase {
            Phase::Staging(k) => k >= n,
            Phase::Unstaging(r) => !(0 < r && r <= n),
            Phase::Committing(k) => k >= n,
            Phase::Reverting(i, f) => !(i < f && f <= n),
            Phase::Restoring(c) => c >= n,
            Phase::Finished => true,
        }
    }

    /// Takes note of how the pending move went: `Ok` if the file was moved,
    /// `Err` with the reason if it was not. With no move pending nothing
    /// changes.
    pub fn answer(&mut self, result: Result<(), String>)
        ensures
            final(self)@ == old(self)@.step(
                result is Ok,
                match result {
                    Ok(_) => Seq::empty(),
                    Err(e) => e@,
                },
            ),
    {
        if self.is_finished() {
            return ;
        }
        let n = self.batch.len();
        let moved = result.is_ok();
        let next = match self.phase {
            Phase::Staging(k) => if moved {
                if k + 1 < n {
                    Phase::Staging(k + 1)
                } else {
                    Phase::Committing(0)
                }
            } else if k == 0 {
                Phase::Finished
            } else {
                Phase::Unstaging(k)
            },
            Phase::Unstaging(r) => if r <= 1 {
                Phase::Finished
            } else {
                Phase::Unstaging(r - 1)
            },
            Phase::Committing(k) => if moved {
                if k + 1 < n {
                    Phase::Committing(k + 1)
                } else {
                    Phase::Finished
                }
            } else if k == 0 {
                Phase::Restoring(0)
            } else {
                Phase::Reverting(0, k)
            },
            Phase::Reverting(i, f) => if i + 1 < f {
                Phase::Reverting(i + 1, f)
            } else {
                Phase::Restoring(f)
            },
            Phase::Restoring(c) => if c + 1 < n {
                Phase::Restoring(c + 1)
            } else {
                Phase::Finished
            },
            Phase::Finished => Phase::Finished,
        };
        match result {
            Err(error) => {
                match self.phase {
                    Phase::Staging(k) => {
                        self.failure = Some(Failure { committing: false, position: k, error });
                    },
                    Phase::Committing(k) => {
                        self.failure = Some(Failure { committing: true, position: k, error });
                    },
                    _ => {},
                }
            },
            Ok(_) => {},
        }
        self.phase = next;
    }

    /// How the run ended, or `None` while moves are still pending.
    pub fn outcome(&self) -> (end: Option<Outcome>)
        ensures
            match end {
                Some(o) => self@.outcome() == Some(o@),
                None => self@.outcome() is None,
            },
    {
        if !self.is_finished() {
            return None;
        }
        match &self.failure {
            Some(f) => if f.position < self.batch.len() {
                let e = &self.batch[f.position];
                if f.committing {
                    Some(
                        Outcome::CommitFailed {
                            position: f.position,
                            temp: e.temp.clone(),
                            target: e.target.clone(),
                            error: f.error.clone(),
                        },
                    )
                } else {
                    Some(
                        Outcome::StageFailed {
                            position: f.position,
                            origin: e.origin.clone(),
                            temp: e.temp.clone(),
                            error: f.error.clone(),
                        },
                    )
                }
            } else {
                None
            },
            None => if self.batch.len() == 0 {
                Some(Outcome::NothingToDo)
            } else {
                Some(Outcome::Committed)
            },
        }
    }

    /// The entries of the batch.
    pub fn batch(&self) -> (entries: &Vec<RenameEntry>)
        ensures
            entry_views(entries@) == self@.batch,
    {
        &self.batch
    }
}

} // verus!
