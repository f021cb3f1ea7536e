//! Undoing a committed batch: each file is moved from its final path back to
//! its origin, in the order of the batch. A file that is no longer at its
//! final path is noted and passed over.

use vstd::prelude::*;
use crate::batch::{EntryView, Move, MoveView, RenameEntry};

verus! {

/// One renamed file: where it was and where it is now.
#[derive(Debug, PartialEq, Eq)]
pub struct Renamed {
    pub origin: String,
    pub target: String,
}

pub struct RenamedView {
    pub origin: Seq<char>,
    pub target: Seq<char>,
}

impl View for Renamed {
    type V = RenamedView;

    open spec fn view(&self) -> RenamedView {
        RenamedView { origin: self.origin@, target: self.target@ }
    }
}

impl Clone for Renamed {
    fn clone(&self) -> (out: Renamed)
        ensures
            out@ == self@,
    {
        Renamed { origin: self.origin.clone(), target: self.target.clone() }
    }
}

/// The views of a run of renamed files.
pub open spec fn renamed_views(pairs: Seq<Renamed>) -> Seq<RenamedView> {
    pairs.map_values(|p: Renamed| p@)
}

/// What a committed batch leaves to be undone: origin and final path of each
/// entry, in the order of the batch.
pub open spec fn undo_record(batch: Seq<EntryView>) -> Seq<RenamedView> {
    batch.map_values(|e: EntryView| RenamedView { origin: e.origin, target: e.target })
}

/// The record of a committed batch.
pub fn record_of(batch: &Vec<RenameEntry>) -> (out: Vec<Renamed>)
    ensures
        renamed_views(out@) == undo_record(crate::batch::entry_views(batch@)),
{
    let mut out: Vec<Renamed> = Vec::new();
    let mut i: usize = 0;
    while i < batch.len()
        invariant
            i <= batch.len(),
            out.len() == i,
            forall|k: int|
                0 <= k < i ==> (#[trigger] out@[k])@ == (RenamedView {
                    origin: batch@[k]@.origin,
                    target: batch@[k]@.target,
                }),
        decreases batch.len() - i,
    {
        out.push(Renamed { origin: batch[i].origin.clone(), target: batch[i].target.clone() });
        i += 1;
    }
    assert(renamed_views(out@) =~= undo_record(crate::batch::entry_views(batch@)));
    out
}

/// What an undo pass asks of its caller.
#[derive(Debug, PartialEq, Eq)]
pub enum UndoRequest {
    /// Is there something at this path?
    Probe(String),
    /// Move this file.
    Move(Move),
}

pub enum UndoRequestView {
    Probe(Seq<char>),
    Move(MoveView),
}

impl View for UndoRequest {
    type V = UndoRequestView;

    open spec fn view(&self) -> UndoRequestView {
        match self {
            UndoRequest::Probe(path) => UndoRequestView::Probe(path@),
            UndoRequest::Move(m) => UndoRequestView::Move(m@),
        }
    }
}

/// A file that could not be put back.
#[derive(Debug, PartialEq, Eq)]
pub enum UndoIssue {
    /// Nothing was found at the final path.
    Missing { target: String },
    /// The move back failed.
    Failed { target: String, origin: String, error: String },
}

pub enum UndoIssueView {
    Missing { target: Seq<char> },
    Failed { target: Seq<char>, origin: Seq<char>, error: Seq<char> },
}

impl View for UndoIssue {
    type V = UndoIssueView;

    open spec fn view(&self) -> UndoIssueView {
        match self {
            UndoIssue::Missing { target } => UndoIssueView::Missing { target: target@ },
            UndoIssue::Failed { target, origin, error } => UndoIssueView::Failed {
                target: target@,
                origin: origin@,
                error: error@,
            },
        }
    }
}

impl Clone for UndoIssue {
    fn clone(&self) -> (out: UndoIssue)
        ensures
            out@ == self@,
    {
        match self {
            UndoIssue::Missing { target } => UndoIssue::Missing { target: target.clone() },
            UndoIssue::Failed { target, origin, error } => UndoIssue::Failed {
                target: target.clone(),
                origin: origin.clone(),
                error: error.clone(),
            },
        }
    }
}

/// The views of a run of issues.
pub open spec fn issue_views(issues: Seq<UndoIssue>) -> Seq<UndoIssueView> {
    issues.map_values(|i: UndoIssue| i@)
}

/// The state of an undo pass as a mathematical value.
pub struct UndoView {
    pub pairs: Seq<RenamedView>,
    /// Position of the file that is being put back.
    pub next: nat,
    /// Whether the pass is asking if that file is at its final path; if not,
    /// it is asking for the move.
    pub probing: bool,
    pub issues: Seq<UndoIssueView>,
}

impl UndoView {
    /// The state before the first answer.
    pub open spec fn start(pairs: Seq<RenamedView>) -> UndoView {
        UndoView { pairs, next: 0, probing: true, issues: Seq::empty() }
    }

    /// What is asked next, if the pass is not over.
    pub open spec fn request(self) -> Option<UndoRequestView> {
        if self.next < self.pairs.len() {
            let pair = self.pairs[self.next as int];
            if self.probing {
                Some(UndoRequestView::Probe(pair.target))
            } else {
                Some(UndoRequestView::Move(MoveView { from: pair.target, to: pair.origin }))
            }
        } else {
            None
        }
    }

    /// The state after the answer `exists` to a pending question. A file
    /// that is there is moved next; one that is not is noted as missing and
    /// the pass goes on to the next file. With no question pending the state
    /// stays as it is.
    pub open spec fn probed(self, exists: bool) -> UndoView {
        if self.request() is Some && self.probing {
            if exists {
                UndoView { probing: false, ..self }
            } else {
                UndoView {
                    next: self.next + 1,
                    issues: self.issues.push(
                        UndoIssueView::Missing { target: self.pairs[self.next as int].target },
                    ),
                    ..self
                }
            }
        } else {
            self
        }
    }

    /// The state after a pending move was attempted. Whether it succeeded or
    /// not the pass goes on to the next file; a failure is noted. With no
    /// move pending the state stays as it is.
    pub open spec fn moved(self, ok: bool, error: Seq<char>) -> UndoView {
        if self.request() is Some && !self.probing {
            UndoView {
                next: self.next + 1,
                probing: true,
                issues: if ok {
                    self.issues
                } else {
                    self.issues.push(
                        UndoIssueView::Failed {
                            target: self.pairs[self.next as int].target,
                            origin: self.pairs[self.next as int].origin,
                            error,
                        },
                    )
                },
                ..self
            }
        } else {
            self
        }
    }
}

/// An undo pass over the record of one batch.
pub struct UndoRun {
    pairs: Vec<Renamed>,
    next: usize,
    probing: bool,
    issues: Vec<UndoIssue>,
}

impl View for UndoRun {
    type V = UndoView;

    closed spec fn view(&self) -> UndoView {
        UndoView {
            pairs: renamed_views(self.pairs@),
            next: self.next as nat,
            probing: self.probing,
            issues: issue_views(self.issues@),
        }
    }
}

impl UndoRun {
    /// A pass over `pairs`, before its first question.
    pub fn new(pairs: Vec<Renamed>) -> (out: UndoRun)
        ensures
            out@ == UndoView::start(renamed_views(pairs@)),
    {
        let out = UndoRun { pairs, next: 0, probing: true, issues: Vec::new() };
        assert(issue_views(out.issues@) =~= Seq::<UndoIssueView>::empty());
        out
    }

    /// What is to be done next, or `None` when the pass is over.
    pub fn request(&self) -> (out: Option<UndoRequest>)
        ensures
            match out {
                Some(r) => self@.request() == Some(r@),
                None => self@.request() is None,
            },
    {
        if self.next < self.pairs.len() {
            let pair = &self.pairs[self.next];
            if self.probing {
                Some(UndoRequest::Probe(pair.target.clone()))
            } else {
                Some(
                    UndoRequest::Move(
                        Move { from: pair.target.clone(), to: pair.origin.clone() },
                    ),
                )
            }
        } else {
            None
        }
    }

    /// Whether the pass is over.
    pub fn is_finished(&self) -> (done: bool)
        ensures
            done == (self@.request() is None),
    {
        self.next >= self.pairs.len()
    }

    /// Takes note of whether something exists at the path asked about.
    pub fn probed(&mut self, exists: bool)
        ensures
            final(self)@ == old(self)@.probed(exists),
    {
        if self.next < self.pairs.len() && self.probing {
            if exists {
                self.probing = false;
            } else {
                let target = self.pairs[self.next].target.clone();
                let ghost before = issue_views(self.issues@);
                self.issues.push(UndoIssue::Missing { target });
                assert(issue_views(self.issues@) =~= before.push(
                    UndoIssueView::Missing { target: target@ },
                ));
                self.next = self.next + 1;
            }
        }
    }

    /// Takes note of how the pending move went: `Ok` if the file was moved,
    /// `Err` with the reason if it was not.
    pub fn moved(&mut self, result: Result<(), String>)
        ensures
            final(self)@ == old(self)@.moved(
                result is Ok,
                match result {
                    Ok(_) => Seq::empty(),
                    Err(e) => e@,
                },
            ),
    {
        if self.next < self.pairs.len() && !self.probing {
            match result {
                Ok(_) => {},
                Err(error) => {
                    let target = self.pairs[self.next].target.clone();
                    let origin = self.pairs[self.next].origin.clone();
                    let ghost before = issue_views(self.issues@);
                    let ghost added = UndoIssueView::Failed {
                        target: target@,
                        origin: origin@,
                        error: error@,
                    };
                    self.issues.push(UndoIssue::Failed { target, origin, error });
                    assert(issue_views(self.issues@) =~= before.push(added));
                },
            }
            self.next = self.next + 1;
            self.probing = true;
        }
    }

    /// The files that could not be put back so far, in the order of the
    /// record.
    pub fn issues(&self) -> (out: Vec<UndoIssue>)
        ensures
            issue_views(out@) == self@.issues,
    {
        let mut out: Vec<UndoIssue> = Vec::new();
        let mut i: usize = 0;
        while i < self.issues.len()
            invariant
                i <= self.issues.len(),
                out.len() == i,
                forall|k: int| 0 <= k < i ==> (#[trigger] out@[k])@ == self.issues@[k]@,
            decreases self.issues.len() - i,
        {
            out.push(self.issues[i].clone());
            i += 1;
        }
        assert(issue_views(out@) =~= issue_views(self.issues@));
        out
    }
}

/// The stack of committed batches: the last one committed is the first one
/// undone.
pub struct UndoStack {
    records: Vec<Vec<Renamed>>,
}

impl View for UndoStack {
    type V = Seq<Seq<RenamedView>>;

    closed spec fn view(&self) -> Seq<Seq<RenamedView>> {
        self.records@.map_values(|r: Vec<Renamed>| renamed_views(r@))
    }
}

impl UndoStack {
    /// A stack with nothing on it.
    pub fn new() -> (out: UndoStack)
        ensures
            out@.len() == 0,
    {
        UndoStack { records: Vec::new() }
    }

    /// How many batches can be undone.
    pub fn len(&self) -> (n: usize)
        ensures
            n == self@.len(),
    {
        self.records.len()
    }

    /// Puts the record of a committed batch on top.
    pub fn push(&mut self, record: Vec<Renamed>)
        ensures
            final(self)@ == old(self)@.push(renamed_views(record@)),
    {
        self.records.push(record);
        assert(self@ =~= old(self)@.push(renamed_views(record@)));
    }

    /// Takes the record that was put on last off the stack.
    pub fn pop(&mut self) -> (out: Option<Vec<Renamed>>)
        ensures
            match out {
                Some(record) => {
                    &&& old(self)@.len() > 0
                    &&& renamed_views(record@) == old(self)@.last()
                    &&& final(self)@ == old(self)@.drop_last()
                },
                None => {
                    &&& old(self)@.len() == 0
                    &&& final(self)@ == old(self)@
                },
            },
    {
        let out = self.records.pop();
        proof {
            if out is Some {
                assert(self@ =~= old(self)@.drop_last());
            }
        }
        out
    }
}

} // verus!
