//! Planning a batch: from the files and their new names to the entries that
//! the executor works through.

use vstd::prelude::*;
use crate::batch::{entry_views, EntryView, RenameEntry};
use crate::decimal::{decimal, is_digit, lemma_decimal_digits, lemma_decimal_injective, push_decimal};
use crate::path::{
    dir_prefix, file_name, lemma_with_file_name, no_separator, replace_file_name, with_file_name,
};
use crate::resolve::{
    candidate, candidate_path, decide, decision, first_free, lemma_first_free, resolve,
    settle_on, settled,
    Decision, DecisionView, Resolution, ResolutionView,
};
use crate::template::CollisionStrategy;
use crate::executor::{ExecutorView, Phase};
use crate::undo::undo_record;

verus! {

/// A file and the name it is to get.
#[derive(Debug, PartialEq, Eq)]
pub struct PlanItem {
    pub origin: String,
    pub name: String,
}

pub struct ItemView {
    pub origin: Seq<char>,
    pub name: Seq<char>,
}

impl View for PlanItem {
    type V = ItemView;

    open spec fn view(&self) -> ItemView {
        ItemView { origin: self.origin@, name: self.name@ }
    }
}

/// The views of a run of items.
pub open spec fn item_views(items: Seq<PlanItem>) -> Seq<ItemView> {
    items.map_values(|i: PlanItem| i@)
}

/// The path that an item is to get: its own with the file name replaced.
pub open spec fn desired_of(item: ItemView) -> Seq<char> {
    with_file_name(item.origin, item.name)
}

/// The file name under which a file is parked: `.tmp-`, the stamp of the
/// pass, `-`, the file's position in the list, `.tmp`.
pub open spec fn temp_name(stamp: nat, index: nat) -> Seq<char> {
    seq!['.', 't', 'm', 'p', '-'] + decimal(stamp) + seq!['-'] + decimal(index) + seq![
        '.',
        't',
        'm',
        'p',
    ]
}

/// The path at which a file is parked: in the directory of its origin, under
/// its temporary name.
pub open spec fn temp_path(origin: Seq<char>, stamp: nat, index: nat) -> Seq<char> {
    dir_prefix(origin) + temp_name(stamp, index)
}

/// The entry for the item at position `index` when it is renamed to `target`.
pub open spec fn entry_for(items: Seq<ItemView>, stamp: nat, index: nat, target: Seq<char>) -> EntryView {
    EntryView {
        index,
        origin: items[index as int].origin,
        temp: temp_path(items[index as int].origin, stamp, index),
        target,
    }
}

/// A plan as far as it has come: the entries, and the position of the item
/// whose collision could not be resolved, if there is one.
pub struct PlanView {
    pub entries: Seq<EntryView>,
    pub failed: Option<nat>,
}

/// The plan for the first `upto` items when the paths in `present` are taken.
/// The items are gone through in order. One that is renamed adds an entry,
/// one that is left alone adds none, and one whose collision is unresolved
/// ends the plan.
pub open spec fn planned(
    items: Seq<ItemView>,
    strategy: CollisionStrategy,
    present: Set<Seq<char>>,
    max: nat,
    stamp: nat,
    upto: nat,
) -> PlanView
    decreases upto,
{
    if upto == 0 {
        PlanView { entries: Seq::empty(), failed: None }
    } else {
        let before = planned(items, strategy, present, max, stamp, (upto - 1) as nat);
        let i = (upto - 1) as nat;
        if before.failed is Some {
            before
        } else {
            match resolve(desired_of(items[i as int]), items[i as int].origin, strategy, present, max) {
                ResolutionView::Target(path) => PlanView {
                    entries: before.entries.push(entry_for(items, stamp, i, path)),
                    failed: None,
                },
                ResolutionView::NoOp => before,
                ResolutionView::Unresolved => PlanView { entries: before.entries, failed: Some(i) },
            }
        }
    }
}

/// The state of a planner as a mathematical value.
pub struct PlannerView {
    pub items: Seq<ItemView>,
    pub strategy: CollisionStrategy,
    pub max: nat,
    pub stamp: nat,
    /// Position of the item that is being resolved.
    pub next: nat,
    /// Number of the attempt whose path is asked about.
    pub attempt: nat,
    pub entries: Seq<EntryView>,
    pub failed: Option<nat>,
}

impl PlannerView {
    /// The state before the first answer. Under `Overwrite` nothing needs to
    /// be asked and the plan is complete.
    pub open spec fn start(items: Seq<ItemView>, strategy: CollisionStrategy, max: nat, stamp: nat) -> PlannerView {
        if strategy is Overwrite {
            PlannerView {
                items,
                strategy,
                max,
                stamp,
                next: items.len(),
                attempt: 0,
                entries: planned(items, strategy, Set::empty(), max, stamp, items.len()).entries,
                failed: None,
            }
        } else {
            PlannerView {
                items,
                strategy,
                max,
                stamp,
                next: 0,
                attempt: 0,
                entries: Seq::empty(),
                failed: None,
            }
        }
    }

    /// The path that the planner needs to know about, if the plan is not
    /// complete.
    pub open spec fn request(self) -> Option<Seq<char>> {
        if self.failed is None && self.next < self.items.len() {
            Some(candidate(desired_of(self.items[self.next as int]), self.attempt))
        } else {
            None
        }
    }

    /// The state after the answer `exists` to the pending question. With no
    /// question pending the state stays as it is.
    pub open spec fn step(self, exists: bool) -> PlannerView {
        if self.request() is None {
            self
        } else {
            let item = self.items[self.next as int];
            match decision(
                desired_of(item),
                item.origin,
                self.strategy,
                self.max,
                self.attempt,
                exists,
            ) {
                DecisionView::Retry(n) => PlannerView { attempt: n, ..self },
                DecisionView::Final(ResolutionView::Target(path)) => PlannerView {
                    next: self.next + 1,
                    attempt: 0,
                    entries: self.entries.push(entry_for(self.items, self.stamp, self.next, path)),
                    ..self
                },
                DecisionView::Final(ResolutionView::NoOp) => PlannerView {
                    next: self.next + 1,
                    attempt: 0,
                    ..self
                },
                DecisionView::Final(ResolutionView::Unresolved) => PlannerView {
                    failed: Some(self.next),
                    ..self
                },
            }
        }
    }

    /// The plan, once it is complete.
    pub open spec fn plan(self) -> Option<PlanView> {
        if self.request() is None {
            Some(PlanView { entries: self.entries, failed: self.failed })
        } else {
            None
        }
    }

    /// Whether the entries are what the items before `next` can have given.
    pub open spec fn wf(self) -> bool {
        &&& self.next <= self.items.len()
        &&& entries_from(self.entries, self.items, self.stamp, self.next)
    }
}

/// Whether each of the entries stems from one of the first `upto` items, in
/// their order, is parked under the temporary path of that item, and moves its
/// file.
pub open spec fn entries_from(entries: Seq<EntryView>, items: Seq<ItemView>, stamp: nat, upto: nat) -> bool {
    &&& forall|k: int|
        0 <= k < entries.len() ==> {
            let e = #[trigger] entries[k];
            &&& e.index < upto
            &&& e.origin == items[e.index as int].origin
            &&& e.temp == temp_path(e.origin, stamp, e.index)
            &&& e.target != e.origin
        }
    &&& forall|j: int, k: int|
        0 <= j < k < entries.len() ==> (#[trigger] entries[j]).index < (#[trigger] entries[k]).index
}

/// Why there is no batch.
#[derive(Clone, Copy, PartialEq, Eq, Structural, Debug)]
pub enum PlanError {
    /// The planner is still waiting for an answer.
    Pending,
    /// For the item at this position no free name was found within the
    /// allowed number of attempts.
    CollisionUnresolved { index: usize },
}

/// The path at which the file `origin` at position `index` is parked.
pub fn temp_path_of(origin: &str, stamp: u128, index: usize) -> (out: String)
    ensures
        out@ == temp_path(origin@, stamp as nat, index as nat),
{
    let mut name = String::new();
    name.push('.');
    name.push('t');
    name.push('m');
    name.push('p');
    name.push('-');
    push_decimal(&mut name, stamp);
    name.push('-');
    push_decimal(&mut name, index as u128);
    name.push('.');
    name.push('t');
    name.push('m');
    name.push('p');
    assert(name@ =~= temp_name(stamp as nat, index as nat));
    replace_file_name(origin, name.as_str())
}

/// A planner for one batch.
pub struct Planner {
    items: Vec<PlanItem>,
    strategy: CollisionStrategy,
    max_probes: u32,
    stamp: u128,
    next: usize,
    attempt: u32,
    entries: Vec<RenameEntry>,
    failed: Option<usize>,
}

impl View for Planner {
    type V = PlannerView;

    closed spec fn view(&self) -> PlannerView {
        PlannerView {
            items: item_views(self.items@),
            strategy: self.strategy,
            max: self.max_probes as nat,
            stamp: self.stamp as nat,
            next: self.next as nat,
            attempt: self.attempt as nat,
            entries: entry_views(self.entries@),
            failed: match self.failed {
                Some(i) => Some(i as nat),
                None => None,
            },
        }
    }
}

impl Planner {
    /// A planner for `items`, gone through in their order. `stamp` goes into
    /// the temporary names; under `Suffix` at most `max_probes` suffixes are
    /// tried for each item.
    pub fn new(items: Vec<PlanItem>, strategy: CollisionStrategy, max_probes: u32, stamp: u128) -> (out:
        Planner)
        ensures
            out@ == PlannerView::start(item_views(items@), strategy, max_probes as nat, stamp as nat),
            out@.wf(),
    {
        let ghost views = item_views(items@);
        let mut entries: Vec<RenameEntry> = Vec::new();
        let mut next: usize = 0;
        assert(entry_views(entries@) =~= Seq::<EntryView>::empty());
        match strategy {
            CollisionStrategy::Overwrite => {
                while next < items.len()
                    invariant
                        next <= items.len(),
                        views == item_views(items@),
                        strategy is Overwrite,
                        planned(
                            views,
                            strategy,
                            Set::empty(),
                            max_probes as nat,
                            stamp as nat,
                            next as nat,
                        ) == (PlanView { entries: entry_views(entries@), failed: None }),
                    decreases items.len() - next,
                {
                    let item = &items[next];
                    assert(views[next as int] == item@);
                    let desired = replace_file_name(item.origin.as_str(), item.name.as_str());
                    assert(resolve(
                        desired_of(views[next as int]),
                        views[next as int].origin,
                        strategy,
                        Set::empty(),
                        max_probes as nat,
                    ) == settled(desired@, item.origin@));
                    let ghost before = entry_views(entries@);
                    match settle_on(desired, item.origin.as_str()) {
                        Resolution::Target(target) => {
                            let temp = temp_path_of(item.origin.as_str(), stamp, next);
                            entries.push(
                                RenameEntry {
                                    index: next,
                                    origin: item.origin.clone(),
                                    temp,
                                    target,
                                },
                            );
                            assert(entry_views(entries@) =~= before.push(
                                entry_for(views, stamp as nat, next as nat, target@),
                            ));
                        },
                        _ => {},
                    }
                    next += 1;
                }
            },
            _ => {},
        }
        let out = Planner {
            items,
            strategy,
            max_probes,
            stamp,
            next,
            attempt: 0,
            entries,
            failed: None,
        };
        proof {
            lemma_start_wf(views, strategy, max_probes as nat, stamp as nat);
        }
        out
    }

    /// The path whose existence is to be looked up next, or `None` when the
    /// plan is complete.
    pub fn request(&self) -> (out: Option<String>)
        ensures
            match out {
                Some(path) => self@.request() == Some(path@),
                None => self@.request() is None,
            },
    {
        if self.failed.is_some() || self.next >= self.items.len() {
            return None;
        }
        let item = &self.items[self.next];
        assert(item_views(self.items@)[self.next as int] == item@);
        let desired = replace_file_name(item.origin.as_str(), item.name.as_str());
        Some(candidate_path(desired.as_str(), self.attempt))
    }

    /// Whether the plan is complete.
    pub fn is_finished(&self) -> (done: bool)
        ensures
            done == (self@.request() is None),
    {
        self.failed.is_some() || self.next >= self.items.len()
    }

    /// Takes note of whether something exists at the path asked about. With
    /// no question pending nothing changes.
    pub fn answer(&mut self, exists: bool)
        ensures
            final(self)@ == old(self)@.step(exists),
            old(self)@.wf() ==> final(self)@.wf(),
    {
        proof {
            if self@.wf() {
                lemma_step_wf(self@, exists);
            }
        }
        if self.is_finished() {
            return ;
        }
        assert(self.next < self.items.len());
        let item = &self.items[self.next];
        assert(item_views(self.items@)[self.next as int] == item@);
        let origin = item.origin.clone();
        let desired = replace_file_name(origin.as_str(), item.name.as_str());
        match decide(
            desired.as_str(),
            origin.as_str(),
            self.strategy,
            self.max_probes,
            self.attempt,
            exists,
        ) {
            Decision::Retry(n) => {
                self.attempt = n;
                assert(self@ == old(self)@.step(exists));
            },
            Decision::Final(Resolution::Target(target)) => {
                let temp = temp_path_of(origin.as_str(), self.stamp, self.next);
                let ghost added = entry_for(
                    old(self)@.items,
                    self.stamp as nat,
                    self.next as nat,
                    target@,
                );
                self.entries.push(RenameEntry { index: self.next, origin, temp, target });
                assert(entry_views(self.entries@) =~= old(self)@.entries.push(added));
                self.next = self.next + 1;
                self.attempt = 0;
                assert(self@ == old(self)@.step(exists));
            },
            Decision::Final(Resolution::NoOp) => {
                self.next = self.next + 1;
                self.attempt = 0;
                assert(self@ == old(self)@.step(exists));
            },
            Decision::Final(Resolution::Unresolved) => {
                self.failed = Some(self.next);
                assert(self@ == old(self)@.step(exists));
            },
        }
    }

    /// The batch, once the plan is complete and no collision was left
    /// unresolved. The batch of a planner that was made by [`Planner::new`]
    /// is in order.
    pub fn finish(self) -> (out: Result<Vec<RenameEntry>, PlanError>)
        ensures
            match out {
                Ok(entries) => {
                    &&& self@.plan() == Some(
                        PlanView { entries: entry_views(entries@), failed: None },
                    )
                    &&& self@.wf() ==> batch_valid(entry_views(entries@))
                },
                Err(PlanError::Pending) => self@.plan() is None,
                Err(PlanError::CollisionUnresolved { index }) => self@.plan() == Some(
                    PlanView { entries: self@.entries, failed: Some(index as nat) },
                ),
            },
    {
        if !self.is_finished() {
            return Err(PlanError::Pending);
        }
        proof {
            if self@.wf() {
                lemma_entries_valid(self@.entries, self@.items, self@.stamp, self@.next);
            }
        }
        match self.failed {
            Some(index) => Err(PlanError::CollisionUnresolved { index }),
            None => Ok(self.entries),
        }
    }
}

/// What [`planned`] yields stems from the items it went through.
pub proof fn lemma_planned_entries(
    items: Seq<ItemView>,
    strategy: CollisionStrategy,
    present: Set<Seq<char>>,
    max: nat,
    stamp: nat,
    upto: nat,
)
    requires
        upto <= items.len(),
    ensures
        entries_from(planned(items, strategy, present, max, stamp, upto).entries, items, stamp, upto),
    decreases upto,
{
    if upto > 0 {
        lemma_planned_entries(items, strategy, present, max, stamp, (upto - 1) as nat);
    }
}

/// A planner starts with entries that stem from its items.
pub proof fn lemma_start_wf(items: Seq<ItemView>, strategy: CollisionStrategy, max: nat, stamp: nat)
    ensures
        PlannerView::start(items, strategy, max, stamp).wf(),
{
    lemma_planned_entries(items, strategy, Set::empty(), max, stamp, items.len());
}

/// An answer leaves a planner with entries that stem from its items.
pub proof fn lemma_step_wf(state: PlannerView, exists: bool)
    requires
        state.wf(),
    ensures
        state.step(exists).wf(),
{
}

impl PlannerView {
    /// How many items are still to be resolved.
    pub open spec fn items_left(self) -> nat {
        if self.request() is None {
            0
        } else {
            (self.items.len() - self.next) as nat
        }
    }

    /// How many attempts are left for the item that is being resolved.
    pub open spec fn attempts_left(self) -> nat {
        if self.attempt <= self.max {
            (self.max - self.attempt) as nat
        } else {
            0
        }
    }

    /// The state in which the planner ends when every question is answered
    /// after `present`.
    pub open spec fn settle(self, present: Set<Seq<char>>) -> PlannerView
        decreases self.items_left(), self.attempts_left(),
    {
        match self.request() {
            None => self,
            Some(path) => self.step(present.contains(path)).settle(present),
        }
    }
}

/// Whether a batch is in order: every entry moves its file, no two entries
/// are parked at the same path, and each is parked in the directory of its
/// origin.
pub open spec fn batch_valid(batch: Seq<EntryView>) -> bool {
    &&& forall|k: int| 0 <= k < batch.len() ==> (#[trigger] batch[k]).target != batch[k].origin
    &&& forall|j: int, k: int|
        0 <= j < batch.len() && 0 <= k < batch.len() && j != k ==> (#[trigger] batch[j]).temp != (
        #[trigger] batch[k]).temp
    &&& forall|k: int|
        0 <= k < batch.len() ==> dir_prefix((#[trigger] batch[k]).temp) == dir_prefix(
            batch[k].origin,
        )
}

/// A temporary name holds no `/`.
pub proof fn lemma_temp_name_plain(stamp: nat, index: nat)
    ensures
        no_separator(temp_name(stamp, index)),
{
    lemma_decimal_digits(stamp);
    lemma_decimal_digits(index);
    let head = seq!['.', 't', 'm', 'p', '-'];
    let mid = seq!['-'];
    let tail = seq!['.', 't', 'm', 'p'];
    let a = decimal(stamp);
    let b = decimal(index);
    let name = temp_name(stamp, index);
    assert(name == head + a + mid + b + tail);
    assert forall|i: int| 0 <= i < name.len() implies name[i] != '/' by {
        if i < 5 {
            assert(name[i] == head[i]);
        } else if i < 5 + a.len() {
            assert(name[i] == a[i - 5]);
            assert(is_digit(a[i - 5]));
        } else if i < 6 + a.len() {
            assert(name[i] == mid[i - 5 - a.len()]);
        } else if i < 6 + a.len() + b.len() {
            assert(name[i] == b[i - 6 - a.len()]);
            assert(is_digit(b[i - 6 - a.len()]));
        } else {
            assert(name[i] == tail[i - 6 - a.len() - b.len()]);
        }
    }
}

/// Under one stamp, different positions have different temporary names.
pub proof fn lemma_temp_names_differ(stamp: nat, i: nat, j: nat)
    requires
        temp_name(stamp, i) == temp_name(stamp, j),
    ensures
        i == j,
{
    let head = seq!['.', 't', 'm', 'p', '-'] + decimal(stamp) + seq!['-'];
    let tail = seq!['.', 't', 'm', 'p'];
    let a = decimal(i);
    let b = decimal(j);
    let x = temp_name(stamp, i);
    let y = temp_name(stamp, j);
    assert(x == head + a + tail);
    assert(y == head + b + tail);
    assert(x.len() == head.len() + a.len() + 4);
    assert(y.len() == head.len() + b.len() + 4);
    assert(a.len() == b.len());
    assert forall|k: int| 0 <= k < a.len() implies a[k] == b[k] by {
        assert(x[head.len() + k] == a[k]);
        assert(y[head.len() + k] == b[k]);
    }
    assert(a =~= b);
    lemma_decimal_injective(i, j);
}

/// A file is parked in the directory of its origin, and under one stamp
/// files at different positions are parked at different paths.
pub proof fn lemma_temp_paths(a: Seq<char>, b: Seq<char>, stamp: nat, i: nat, j: nat)
    ensures
        dir_prefix(temp_path(a, stamp, i)) == dir_prefix(a),
        file_name(temp_path(a, stamp, i)) == temp_name(stamp, i),
        temp_path(a, stamp, i) == temp_path(b, stamp, j) ==> i == j,
{
    lemma_temp_name_plain(stamp, i);
    lemma_temp_name_plain(stamp, j);
    lemma_with_file_name(a, temp_name(stamp, i));
    lemma_with_file_name(b, temp_name(stamp, j));
    if temp_path(a, stamp, i) == temp_path(b, stamp, j) {
        lemma_temp_names_differ(stamp, i, j);
    }
}

/// Entries that stem from a run of items make a batch that is in order.
pub proof fn lemma_entries_valid(entries: Seq<EntryView>, items: Seq<ItemView>, stamp: nat, upto: nat)
    requires
        entries_from(entries, items, stamp, upto),
    ensures
        batch_valid(entries),
{
    assert forall|j: int, k: int|
        0 <= j < entries.len() && 0 <= k < entries.len() && j != k implies (
    #[trigger] entries[j]).temp != (#[trigger] entries[k]).temp by {
        lemma_temp_paths(
            entries[j].origin,
            entries[k].origin,
            stamp,
            entries[j].index,
            entries[k].index,
        );
        if j < k {
            assert(entries[j].index < entries[k].index);
        } else {
            assert(entries[k].index < entries[j].index);
        }
    }
    assert forall|k: int| 0 <= k < entries.len() implies dir_prefix((#[trigger] entries[k]).temp)
        == dir_prefix(entries[k].origin) by {
        lemma_temp_paths(entries[k].origin, entries[k].origin, stamp, entries[k].index, 0);
    }
}

/// Once a collision is unresolved the plan goes no further.
pub proof fn lemma_failed_plan_stays(
    items: Seq<ItemView>,
    strategy: CollisionStrategy,
    present: Set<Seq<char>>,
    max: nat,
    stamp: nat,
    from: nat,
    upto: nat,
)
    requires
        from <= upto,
        planned(items, strategy, present, max, stamp, from).failed is Some,
    ensures
        planned(items, strategy, present, max, stamp, upto) == planned(
            items,
            strategy,
            present,
            max,
            stamp,
            from,
        ),
    decreases upto,
{
    if from < upto {
        lemma_failed_plan_stays(items, strategy, present, max, stamp, from, (upto - 1) as nat);
    }
}

/// Under `Overwrite` the plan does not depend on what is there, and no
/// collision is left unresolved.
pub proof fn lemma_overwrite_plan(
    items: Seq<ItemView>,
    present: Set<Seq<char>>,
    max: nat,
    stamp: nat,
    upto: nat,
)
    ensures
        planned(items, CollisionStrategy::Overwrite, present, max, stamp, upto) == planned(
            items,
            CollisionStrategy::Overwrite,
            Set::empty(),
            max,
            stamp,
            upto,
        ),
        planned(items, CollisionStrategy::Overwrite, present, max, stamp, upto).failed is None,
    decreases upto,
{
    if upto > 0 {
        lemma_overwrite_plan(items, present, max, stamp, (upto - 1) as nat);
    }
}

/// A planner that has come to item `next` with the plan for the items before
/// it, and has so far found every attempt for that item taken, ends with the
/// plan for all items.
pub proof fn lemma_settle_from(state: PlannerView, present: Set<Seq<char>>)
    requires
        !(state.strategy is Overwrite),
        state.next <= state.items.len(),
        state.failed is None,
        planned(state.items, state.strategy, present, state.max, state.stamp, state.next) == (
        PlanView { entries: state.entries, failed: None }),
        state.next < state.items.len() ==> {
            &&& state.attempt <= state.max
            &&& state.strategy is Skip ==> state.attempt == 0
            &&& first_free(desired_of(state.items[state.next as int]), present, 0, state.max)
                == first_free(
                desired_of(state.items[state.next as int]),
                present,
                state.attempt,
                state.max,
            )
        },
    ensures
        state.settle(present).plan() == Some(
            planned(
                state.items,
                state.strategy,
                present,
                state.max,
                state.stamp,
                state.items.len(),
            ),
        ),
    decreases state.items.len() - state.next, state.max - state.attempt,
{
    if state.next < state.items.len() {
        let item = state.items[state.next as int];
        let desired = desired_of(item);
        let exists = present.contains(candidate(desired, state.attempt));
        let after = state.step(exists);
        let verdict = resolve(desired, item.origin, state.strategy, present, state.max);
        let grown = planned(
            state.items,
            state.strategy,
            present,
            state.max,
            state.stamp,
            state.next + 1,
        );
        assert(state.settle(present) == after.settle(present));
        if !exists {
            assert(verdict == settled(candidate(desired, state.attempt), item.origin));
            assert(grown == (PlanView { entries: after.entries, failed: None }));
            lemma_settle_from(after, present);
        } else if state.strategy is Skip {
            assert(verdict == ResolutionView::NoOp);
            lemma_settle_from(after, present);
        } else if state.attempt < state.max {
            lemma_settle_from(after, present);
        } else {
            assert(first_free(desired, present, state.attempt + 1, state.max) is None);
            assert(verdict == ResolutionView::Unresolved);
            assert(grown == (PlanView { entries: state.entries, failed: Some(state.next) }));
            lemma_failed_plan_stays(
                state.items,
                state.strategy,
                present,
                state.max,
                state.stamp,
                state.next + 1,
                state.items.len(),
            );
            assert(after.settle(present) == after);
        }
    }
}

/// Answered truthfully, a planner ends with the plan that [`planned`]
/// defines for all its items.
pub proof fn lemma_planner_settles(
    items: Seq<ItemView>,
    strategy: CollisionStrategy,
    present: Set<Seq<char>>,
    max: nat,
    stamp: nat,
)
    ensures
        PlannerView::start(items, strategy, max, stamp).settle(present).plan() == Some(
            planned(items, strategy, present, max, stamp, items.len()),
        ),
{
    let begin = PlannerView::start(items, strategy, max, stamp);
    if strategy is Overwrite {
        lemma_overwrite_plan(items, present, max, stamp, items.len());
        assert(begin.settle(present) == begin);
    } else {
        lemma_settle_from(begin, present);
    }
}

/// Under `Skip` every entry of the plan takes its file to the wanted path,
/// and that path is not taken.
pub proof fn lemma_skip_plan(
    items: Seq<ItemView>,
    present: Set<Seq<char>>,
    max: nat,
    stamp: nat,
    upto: nat,
)
    requires
        upto <= items.len(),
    ensures
        ({
            let plan = planned(items, CollisionStrategy::Skip, present, max, stamp, upto);
            &&& plan.failed is None
            &&& forall|k: int|
                0 <= k < plan.entries.len() ==> {
                    let e = #[trigger] plan.entries[k];
                    &&& e.index < upto
                    &&& e.origin == items[e.index as int].origin
                    &&& e.target == desired_of(items[e.index as int])
                    &&& !present.contains(e.target)
                }
        }),
    decreases upto,
{
    if upto > 0 {
        lemma_skip_plan(items, present, max, stamp, (upto - 1) as nat);
    }
}

/// Under `Skip` a file whose wanted path is taken by something else is left
/// out of the batch: no entry has it as its origin, and the record that is
/// kept for undoing the batch does not name it. If the file is there and no
/// entry is parked at its path, no move of the executor takes anything from
/// or to its path. Where the list holds the file more than once this is so if
/// the wanted path is taken for each of them.
pub proof fn law_skip_leaves_file_alone(
    items: Seq<ItemView>,
    present: Set<Seq<char>>,
    max: nat,
    stamp: nat,
    path: Seq<char>,
)
    requires
        forall|i: int|
            0 <= i < items.len() && (#[trigger] items[i]).origin == path ==> present.contains(
                desired_of(items[i]),
            ) && desired_of(items[i]) != path,
    ensures
        ({
            let plan = planned(items, CollisionStrategy::Skip, present, max, stamp, items.len());
            let record = undo_record(plan.entries);
            &&& plan.failed is None
            &&& forall|k: int| 0 <= k < plan.entries.len() ==> (#[trigger] plan.entries[k]).origin != path
            &&& forall|k: int| 0 <= k < record.len() ==> (#[trigger] record[k]).origin != path
            &&& present.contains(path) && (forall|k: int|
                0 <= k < plan.entries.len() ==> (#[trigger] plan.entries[k]).temp != path)
                ==> forall|state: ExecutorView|
                state.batch == plan.entries ==> (#[trigger] state.request() matches Some(m)
                    ==> m.from != path && m.to != path)
        }),
{
    lemma_skip_plan(items, present, max, stamp, items.len());
    let plan = planned(items, CollisionStrategy::Skip, present, max, stamp, items.len());
    let record = undo_record(plan.entries);
    assert forall|k: int| 0 <= k < record.len() implies (#[trigger] record[k]).origin != path by {
        assert(record[k].origin == plan.entries[k].origin);
    }
    if present.contains(path) && (forall|k: int|
        0 <= k < plan.entries.len() ==> (#[trigger] plan.entries[k]).temp != path) {
        assert forall|state: ExecutorView| state.batch == plan.entries implies (
        #[trigger] state.request() matches Some(m) ==> m.from != path && m.to != path) by {
            if state.request() matches Some(m) {
                let at: int = match state.phase {
                    Phase::Staging(k) => k as int,
                    Phase::Unstaging(r) => r - 1,
                    Phase::Committing(k) => k as int,
                    Phase::Reverting(i, _) => i as int,
                    Phase::Restoring(c) => c as int,
                    Phase::Finished => 0,
                };
                let e = plan.entries[at];
                assert(e.origin != path && e.temp != path && e.target != path);
            }
        }
    }
}

/// Where every file is left alone the batch is empty.
pub proof fn lemma_noop_plan(
    items: Seq<ItemView>,
    strategy: CollisionStrategy,
    present: Set<Seq<char>>,
    max: nat,
    stamp: nat,
    upto: nat,
)
    requires
        upto <= items.len(),
        forall|i: int|
            0 <= i < items.len() ==> resolve(
                desired_of(#[trigger] items[i]),
                items[i].origin,
                strategy,
                present,
                max,
            ) == ResolutionView::NoOp,
    ensures
        planned(items, strategy, present, max, stamp, upto) == (PlanView {
            entries: Seq::empty(),
            failed: None,
        }),
    decreases upto,
{
    if upto > 0 {
        lemma_noop_plan(items, strategy, present, max, stamp, (upto - 1) as nat);
    }
}

/// A plan made under `Skip` or `Suffix` has no more entries than items went
/// into it, and takes no file to a path that is taken.
pub proof fn lemma_plan_avoids_taken(
    items: Seq<ItemView>,
    strategy: CollisionStrategy,
    present: Set<Seq<char>>,
    max: nat,
    stamp: nat,
    upto: nat,
)
    requires
        !(strategy is Overwrite),
        upto <= items.len(),
    ensures
        ({
            let plan = planned(items, strategy, present, max, stamp, upto);
            &&& plan.entries.len() <= upto
            &&& forall|k: int|
                0 <= k < plan.entries.len() ==> !present.contains(
                    (#[trigger] plan.entries[k]).target,
                )
        }),
    decreases upto,
{
    if upto > 0 {
        lemma_plan_avoids_taken(items, strategy, present, max, stamp, (upto - 1) as nat);
        let item = items[upto - 1];
        lemma_first_free(desired_of(item), present, 0, max);
    }
}

} // verus!
