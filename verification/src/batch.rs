//! The data a rename pass works on: entries, batches and single moves.

use vstd::prelude::*;

verus! {

/// One file of a batch: where it is, where it is parked while the batch is
/// under way, and where it is to end up.
#[derive(Debug, PartialEq, Eq)]
pub struct RenameEntry {
    /// Position of the file in the list the batch was planned from.
    pub index: usize,
    pub origin: String,
    pub temp: String,
    pub target: String,
}

pub struct EntryView {
    pub index: nat,
    pub origin: Seq<char>,
    pub temp: Seq<char>,
    pub target: Seq<char>,
}

impl View for RenameEntry {
    type V = EntryView;

    open spec fn view(&self) -> EntryView {
        EntryView {
            index: self.index as nat,
            origin: self.origin@,
            temp: self.temp@,
            target: self.target@,
        }
    }
}

impl Clone for RenameEntry {
    fn clone(&self) -> (out: RenameEntry)
        ensures
            out@ == self@,
    {
        RenameEntry {
            index: self.index,
            origin: self.origin.clone(),
            temp: self.temp.clone(),
            target: self.target.clone(),
        }
    }
}

/// The views of a run of entries.
pub open spec fn entry_views(entries: Seq<RenameEntry>) -> Seq<EntryView> {
    entries.map_values(|e: RenameEntry| e@)
}

/// A request to move the file at `from` to `to`.
#[derive(Debug, PartialEq, Eq)]
pub struct Move {
    pub from: String,
    pub to: String,
}

pub struct MoveView {
    pub from: Seq<char>,
    pub to: Seq<char>,
}

impl View for Move {
    type V = MoveView;

    open spec fn view(&self) -> MoveView {
        MoveView { from: self.from@, to: self.to@ }
    }
}

/// The origins of a batch, in order.
pub open spec fn origins_of(batch: Seq<EntryView>) -> Seq<Seq<char>> {
    batch.map_values(|e: EntryView| e.origin)
}

/// The temporary paths of a batch, in order.
pub open spec fn temps_of(batch: Seq<EntryView>) -> Seq<Seq<char>> {
    batch.map_values(|e: EntryView| e.temp)
}

/// The final paths of a batch, in order.
pub open spec fn targets_of(batch: Seq<EntryView>) -> Seq<Seq<char>> {
    batch.map_values(|e: EntryView| e.target)
}

} // verus!
