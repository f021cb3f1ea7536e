//! What the executor and the undo pass do to the modelled filesystem: the
//! runs of both on the model, and the laws that hold of them.

use vstd::prelude::*;
use crate::batch::{origins_of, targets_of, temps_of, EntryView};
use crate::executor::{ExecutorView, OutcomeView, Phase};
use crate::model::{
    layout, lemma_layout_empty, lemma_layout_extend, lemma_layout_home, lemma_layout_move,
    move_file, placed,
};
use crate::plan::{
    desired_of, lemma_entries_valid, lemma_noop_plan, lemma_plan_avoids_taken,
    lemma_planned_entries, planned, ItemView,
};
use crate::resolve::{resolve, ResolutionView};
use crate::template::CollisionStrategy;
use crate::undo::{undo_record, UndoRequestView, UndoView};

verus! {

/// The order of the phases: a run never goes back to an earlier one.
pub open spec fn rank(state: ExecutorView) -> nat {
    match state.phase {
        Phase::Staging(_) => 5,
        Phase::Committing(_) => 4,
        Phase::Unstaging(_) => 3,
        Phase::Reverting(_, _) => 2,
        Phase::Restoring(_) => 1,
        Phase::Finished => 0,
    }
}

/// How many moves the present phase can still ask for.
pub open spec fn moves_left(state: ExecutorView) -> nat {
    let n = state.batch.len();
    match state.phase {
        Phase::Staging(k) => (n - k) as nat,
        Phase::Committing(k) => (n - k) as nat,
        Phase::Unstaging(r) => r as nat,
        Phase::Reverting(i, f) => (f - i) as nat,
        Phase::Restoring(c) => (n - c) as nat,
        Phase::Finished => 0,
    }
}

/// The end of a run on the model: the state of the executor and the model
/// when nothing more is asked for. Each move is made on the model and the
/// executor is told how it went. A move fails if there is no file to take;
/// besides, the move with the number `fault`, counted from 0 at `state`, fails
/// if it is one of those that take a file towards its final path.
pub open spec fn run(state: ExecutorView, fs: Map<Seq<char>, int>, fault: int) -> (
    ExecutorView,
    Map<Seq<char>, int>,
)
    decreases rank(state), moves_left(state),
    when state.batch.len() <= usize::MAX
{
    match state.request() {
        None => (state, fs),
        Some(m) => if fs.dom().contains(m.from) && !(state.forward() && fault == 0) {
            run(state.step(true, Seq::empty()), move_file(fs, m.from, m.to), fault - 1)
        } else {
            run(state.step(false, Seq::empty()), fs, fault - 1)
        },
    }
}

/// Whether the run ended with a failed staging move.
pub open spec fn stage_failed(state: ExecutorView) -> bool {
    state.outcome() matches Some(OutcomeView::StageFailed { .. })
}

/// Whether the temporary paths of the batch are free: nothing is there in
/// `fs`, no two entries share one, and none is the origin of an entry.
pub open spec fn parking_free(batch: Seq<EntryView>, fs: Map<Seq<char>, int>) -> bool {
    &&& forall|k: int| 0 <= k < batch.len() ==> !fs.dom().contains((#[trigger] batch[k]).temp)
    &&& forall|j: int, k: int|
        0 <= j < batch.len() && 0 <= k < batch.len() && j != k ==> (#[trigger] batch[j]).temp != (
        #[trigger] batch[k]).temp
    &&& forall|j: int, k: int|
        0 <= j < batch.len() && 0 <= k < batch.len() ==> (#[trigger] batch[j]).temp != (
        #[trigger] batch[k]).origin
}

/// Whether the first `k` entries can be parked: their origins are `k`
/// different files of `base`.
pub open spec fn stageable(batch: Seq<EntryView>, base: Map<Seq<char>, int>, k: int) -> bool {
    &&& 0 <= k <= batch.len()
    &&& forall|j: int| 0 <= j < k ==> base.dom().contains((#[trigger] batch[j]).origin)
    &&& forall|i: int, j: int|
        0 <= i < k && 0 <= j < k && i != j ==> (#[trigger] batch[i]).origin != (
        #[trigger] batch[j]).origin
}

/// The model in which the first `k` entries are parked.
pub open spec fn staged(batch: Seq<EntryView>, base: Map<Seq<char>, int>, k: int) -> Map<
    Seq<char>,
    int,
> {
    layout(base, origins_of(batch).take(k), temps_of(batch).take(k))
}

proof fn lemma_staged_placed(batch: Seq<EntryView>, base: Map<Seq<char>, int>, k: int)
    requires
        parking_free(batch, base),
        stageable(batch, base, k),
    ensures
        placed(base, origins_of(batch).take(k), temps_of(batch).take(k)),
        origins_of(batch).take(k).no_duplicates(),
        forall|p: Seq<char>|
            temps_of(batch).take(k).contains(p) ==> !origins_of(batch).contains(p)
                && !base.dom().contains(p),
        forall|j: int|
            0 <= j < batch.len() ==> !temps_of(batch).take(k).contains(
                (#[trigger] batch[j]).origin,
            ),
{
    let homes = origins_of(batch).take(k);
    let places = temps_of(batch).take(k);
    assert forall|j: int| 0 <= j < k implies homes[j] == batch[j].origin && places[j]
        == batch[j].temp by {}
    assert forall|p: Seq<char>| places.contains(p) implies !origins_of(batch).contains(p)
        && !base.dom().contains(p) by {
        let j = places.index_of(p);
        assert(places[j] == batch[j].temp);
        if origins_of(batch).contains(p) {
            let i = origins_of(batch).index_of(p);
            assert(origins_of(batch)[i] == batch[i].origin);
        }
    }
    assert forall|j: int| 0 <= j < batch.len() implies !places.contains(
        (#[trigger] batch[j]).origin,
    ) by {
        assert(origins_of(batch)[j] == batch[j].origin);
    }
    assert forall|j: int| 0 <= j < places.len() implies !base.dom().contains(
        #[trigger] places[j],
    ) || homes.contains(places[j]) by {
        assert(places.contains(places[j]));
    }
}

/// From a commit on, a run does not end with a failed staging move.
proof fn lemma_past_staging(state: ExecutorView, fs: Map<Seq<char>, int>, fault: int)
    requires
        state.batch.len() <= usize::MAX,
        !(state.phase is Staging) && !(state.phase is Unstaging),
        state.failure matches Some(f) ==> f.committing,
    ensures
        !stage_failed(run(state, fs, fault).0),
    decreases rank(state), moves_left(state),
{
    match state.request() {
        None => {},
        Some(m) => {
            if fs.dom().contains(m.from) && !(state.forward() && fault == 0) {
                lemma_past_staging(
                    state.step(true, Seq::empty()),
                    move_file(fs, m.from, m.to),
                    fault - 1,
                );
            } else {
                lemma_past_staging(state.step(false, Seq::empty()), fs, fault - 1);
            }
        },
    }
}

/// Unparking puts the model back to the base.
proof fn lemma_unstaging(
    state: ExecutorView,
    base: Map<Seq<char>, int>,
    fs: Map<Seq<char>, int>,
    fault: int,
)
    requires
        state.batch.len() <= usize::MAX,
        parking_free(state.batch, base),
        state.phase matches Phase::Unstaging(r) && stageable(state.batch, base, r as int) && fs
            == staged(state.batch, base, r as int),
    ensures
        run(state, fs, fault).1 == base,
        run(state, fs, fault).0.failure == state.failure,
        state.phase->Unstaging_0 > 0 ==> run(state, fs, fault).0 == (ExecutorView {
            phase: Phase::Finished,
            ..state
        }),
    decreases moves_left(state),
{
    let batch = state.batch;
    let r = state.phase->Unstaging_0 as int;
    if r == 0 {
        assert(origins_of(batch).take(0) =~= Seq::empty());
        assert(temps_of(batch).take(0) =~= Seq::empty());
        lemma_layout_empty(base);
    } else {
        let homes = origins_of(batch).take(r);
        let places = temps_of(batch).take(r);
        let less_homes = origins_of(batch).take(r - 1);
        let less_places = temps_of(batch).take(r - 1);
        let home = batch[r - 1].origin;
        lemma_staged_placed(batch, base, r);
        lemma_staged_placed(batch, base, r - 1);
        assert(homes[r - 1] == home);
        assert(places[r - 1] == batch[r - 1].temp);
        lemma_layout_move(base, homes, places, r - 1, home);
        assert(homes =~= less_homes.push(home));
        assert(places.update(r - 1, home) =~= less_places.push(home));
        assert(!less_homes.contains(home)) by {
            if less_homes.contains(home) {
                let j = less_homes.index_of(home);
                assert(less_homes[j] == batch[j].origin);
            }
        }
        lemma_layout_extend(base, less_homes, less_places, home);
        let next = state.step(true, Seq::empty());
        let moved = move_file(fs, batch[r - 1].temp, home);
        assert(moved == staged(batch, base, r - 1));
        assert(run(state, fs, fault) == run(next, moved, fault - 1));
        if r == 1 {
            assert(less_homes =~= Seq::empty());
            assert(less_places =~= Seq::empty());
            lemma_layout_empty(base);
        } else {
            lemma_unstaging(next, base, moved, fault - 1);
        }
    }
}

/// A run that is parking files and ends with a failed staging move leaves the
/// model as the base.
proof fn lemma_staging(
    state: ExecutorView,
    base: Map<Seq<char>, int>,
    fs: Map<Seq<char>, int>,
    fault: int,
)
    requires
        state.batch.len() <= usize::MAX,
        parking_free(state.batch, base),
        state.failure is None,
        state.phase matches Phase::Staging(k) && stageable(state.batch, base, k as int) && fs
            == staged(state.batch, base, k as int),
    ensures
        stage_failed(run(state, fs, fault).0) ==> run(state, fs, fault).1 == base,
    decreases moves_left(state),
{
    let batch = state.batch;
    let k = state.phase->Staging_0 as int;
    if k < batch.len() {
        let homes = origins_of(batch).take(k);
        let places = temps_of(batch).take(k);
        let home = batch[k].origin;
        let temp = batch[k].temp;
        lemma_staged_placed(batch, base, k);
        if fs.dom().contains(home) && !(state.forward() && fault == 0) {
            let next = state.step(true, Seq::empty());
            let moved = move_file(fs, home, temp);
            assert(run(state, fs, fault) == run(next, moved, fault - 1));
            assert(!places.contains(home));
            assert(base.dom().contains(home) && !homes.contains(home));
            assert(stageable(batch, base, k + 1)) by {
                assert forall|i: int, j: int| 0 <= i < k + 1 && 0 <= j < k + 1 && i != j implies (
                #[trigger] batch[i]).origin != (#[trigger] batch[j]).origin by {
                    if i == k {
                        assert(homes[j] == batch[j].origin);
                    } else if j == k {
                        assert(homes[i] == batch[i].origin);
                    }
                }
            }
            lemma_stage_step(batch, base, k);
            if k + 1 < batch.len() {
                lemma_staging(next, base, moved, fault - 1);
            } else {
                lemma_past_staging(next, moved, fault - 1);
            }
        } else {
            let next = state.step(false, Seq::empty());
            assert(run(state, fs, fault) == run(next, fs, fault - 1));
            if k == 0 {
                assert(homes =~= Seq::empty());
                assert(places =~= Seq::empty());
                lemma_layout_empty(base);
            } else {
                lemma_unstaging(next, base, fs, fault - 1);
            }
        }
    }
}

/// Rollback of the first phase: where the temporary paths of the batch are
/// free, a run that ends with a failed staging move leaves every file where
/// it was and nothing at any temporary path, whichever move failed and for
/// whatever reason.
pub proof fn law_stage_failure_restores(batch: Seq<EntryView>, fs: Map<Seq<char>, int>, fault: int)
    requires
        batch.len() <= usize::MAX,
        parking_free(batch, fs),
    ensures
        stage_failed(run(ExecutorView::start(batch), fs, fault).0) ==> run(
            ExecutorView::start(batch),
            fs,
            fault,
        ).1 == fs,
{
    let begin = ExecutorView::start(batch);
    if batch.len() > 0 {
        assert(origins_of(batch).take(0) =~= Seq::empty());
        assert(temps_of(batch).take(0) =~= Seq::empty());
        lemma_layout_empty(fs);
        lemma_staging(begin, fs, fs, fault);
    }
}

/// The end of an undo pass on the model: the state of the pass and the model
/// when nothing more is asked for. Each question is answered after the model
/// and each move is made on it.
pub open spec fn undo_run(state: UndoView, fs: Map<Seq<char>, int>) -> (
    UndoView,
    Map<Seq<char>, int>,
)
    decreases state.pairs.len() - state.next, if state.probing { 1nat } else { 0nat },
{
    match state.request() {
        None => (state, fs),
        Some(UndoRequestView::Probe(path)) => undo_run(state.probed(fs.dom().contains(path)), fs),
        Some(UndoRequestView::Move(m)) => if fs.dom().contains(m.from) {
            undo_run(state.moved(true, Seq::empty()), move_file(fs, m.from, m.to))
        } else {
            undo_run(state.moved(false, Seq::empty()), fs)
        },
    }
}

/// Whether the final paths of the batch are free: no two entries share one,
/// none is a temporary path or the origin of its own entry, and where
/// something is there in `fs` it is a file that the batch moves away.
pub open spec fn targets_free(batch: Seq<EntryView>, fs: Map<Seq<char>, int>) -> bool {
    &&& forall|j: int, k: int|
        0 <= j < batch.len() && 0 <= k < batch.len() && j != k ==> (#[trigger] batch[j]).target != (
        #[trigger] batch[k]).target
    &&& forall|j: int, k: int|
        0 <= j < batch.len() && 0 <= k < batch.len() ==> (#[trigger] batch[j]).target != (
        #[trigger] batch[k]).temp
    &&& forall|k: int| 0 <= k < batch.len() ==> (#[trigger] batch[k]).target != batch[k].origin
    &&& forall|k: int|
        0 <= k < batch.len() ==> !fs.dom().contains((#[trigger] batch[k]).target) || origins_of(
            batch,
        ).contains(batch[k].target)
}

/// Whether the batch can be undone in its own order: no entry ends up at the
/// origin of an earlier one.
pub open spec fn undo_in_order(batch: Seq<EntryView>) -> bool {
    forall|j: int, k: int|
        0 <= j < k < batch.len() ==> (#[trigger] batch[j]).origin != (#[trigger] batch[k]).target
}

/// The model in which the first `k` entries are at their final paths and the
/// others are parked.
pub open spec fn committed(batch: Seq<EntryView>, base: Map<Seq<char>, int>, k: int) -> Map<
    Seq<char>,
    int,
> {
    layout(base, origins_of(batch), targets_of(batch).take(k) + temps_of(batch).skip(k))
}

/// The model in which the first `k` entries are back at their origins and
/// the others are at their final paths.
pub open spec fn undone(batch: Seq<EntryView>, base: Map<Seq<char>, int>, k: int) -> Map<
    Seq<char>,
    int,
> {
    layout(base, origins_of(batch), origins_of(batch).take(k) + targets_of(batch).skip(k))
}

/// Parking one more entry.
proof fn lemma_stage_step(batch: Seq<EntryView>, base: Map<Seq<char>, int>, k: int)
    requires
        parking_free(batch, base),
        0 <= k < batch.len(),
        stageable(batch, base, k + 1),
    ensures
        staged(batch, base, k).dom().contains(batch[k].origin),
        move_file(staged(batch, base, k), batch[k].origin, batch[k].temp) == staged(
            batch,
            base,
            k + 1,
        ),
{
    let homes = origins_of(batch).take(k);
    let places = temps_of(batch).take(k);
    let home = batch[k].origin;
    let temp = batch[k].temp;
    assert(stageable(batch, base, k));
    lemma_staged_placed(batch, base, k);
    assert(!homes.contains(home)) by {
        if homes.contains(home) {
            let j = homes.index_of(home);
            assert(homes[j] == batch[j].origin);
        }
    }
    lemma_layout_extend(base, homes, places, home);
    assert(!places.push(home).contains(temp)) by {
        if places.push(home).contains(temp) {
            let j = places.push(home).index_of(temp);
            if j < k {
                assert(places[j] == batch[j].temp);
            }
        }
    }
    lemma_layout_move(base, homes.push(home), places.push(home), k, temp);
    assert(homes.push(home) =~= origins_of(batch).take(k + 1));
    assert(places.push(home).update(k, temp) =~= temps_of(batch).take(k + 1));
}

/// With nothing in the way, parking goes through to the first commit.
proof fn lemma_staging_succeeds(state: ExecutorView, base: Map<Seq<char>, int>, fault: int)
    requires
        0 < state.batch.len() <= usize::MAX,
        parking_free(state.batch, base),
        stageable(state.batch, base, state.batch.len() as int),
        state.failure is None,
        state.phase matches Phase::Staging(k) && k < state.batch.len() && (fault < 0 || fault
            >= state.batch.len() - k),
    ensures
        ({
            let k = state.phase->Staging_0 as int;
            let n = state.batch.len() as int;
            run(state, staged(state.batch, base, k), fault) == run(
                ExecutorView { phase: Phase::Committing(0), ..state },
                staged(state.batch, base, n),
                fault - (n - k),
            )
        }),
    decreases moves_left(state),
{
    let batch = state.batch;
    let k = state.phase->Staging_0 as int;
    assert(stageable(batch, base, k + 1));
    lemma_stage_step(batch, base, k);
    let next = state.step(true, Seq::empty());
    assert(run(state, staged(batch, base, k), fault) == run(
        next,
        staged(batch, base, k + 1),
        fault - 1,
    ));
    if k + 1 < batch.len() {
        lemma_staging_succeeds(next, base, fault - 1);
    }
}

proof fn lemma_committed_placed(batch: Seq<EntryView>, base: Map<Seq<char>, int>, k: int)
    requires
        parking_free(batch, base),
        targets_free(batch, base),
        stageable(batch, base, batch.len() as int),
        0 <= k <= batch.len(),
    ensures
        placed(base, origins_of(batch), targets_of(batch).take(k) + temps_of(batch).skip(k)),
        k < batch.len() ==> !(targets_of(batch).take(k) + temps_of(batch).skip(k)).contains(
            batch[k].target,
        ),
        k < batch.len() ==> (targets_of(batch).take(k) + temps_of(batch).skip(k))[k]
            == batch[k].temp,
{
    let homes = origins_of(batch);
    let places = targets_of(batch).take(k) + temps_of(batch).skip(k);
    assert forall|j: int| 0 <= j < batch.len() implies homes[j] == batch[j].origin && places[j]
        == if j < k {
        batch[j].target
    } else {
        batch[j].temp
    } by {}
    assert forall|j: int| 0 <= j < places.len() implies !base.dom().contains(
        #[trigger] places[j],
    ) || homes.contains(places[j]) by {}
    if k < batch.len() {
        if places.contains(batch[k].target) {
            let j = places.index_of(batch[k].target);
            assert(places[j] == batch[k].target);
        }
    }
}

/// With nothing in the way, the commits go through to the end.
proof fn lemma_committing_succeeds(state: ExecutorView, base: Map<Seq<char>, int>, fault: int)
    requires
        0 < state.batch.len() <= usize::MAX,
        parking_free(state.batch, base),
        targets_free(state.batch, base),
        stageable(state.batch, base, state.batch.len() as int),
        fault < 0,
        state.failure is None,
        state.phase matches Phase::Committing(k) && k < state.batch.len(),
    ensures
        ({
            let k = state.phase->Committing_0 as int;
            let n = state.batch.len() as int;
            run(state, committed(state.batch, base, k), fault) == (
                ExecutorView { phase: Phase::Finished, ..state },
                committed(state.batch, base, n),
            )
        }),
    decreases moves_left(state),
{
    let batch = state.batch;
    let k = state.phase->Committing_0 as int;
    let n = batch.len() as int;
    let homes = origins_of(batch);
    let places = targets_of(batch).take(k) + temps_of(batch).skip(k);
    lemma_committed_placed(batch, base, k);
    lemma_layout_move(base, homes, places, k, batch[k].target);
    assert(places.update(k, batch[k].target) =~= targets_of(batch).take(k + 1) + temps_of(
        batch,
    ).skip(k + 1));
    let next = state.step(true, Seq::empty());
    assert(run(state, committed(batch, base, k), fault) == run(
        next,
        committed(batch, base, k + 1),
        fault - 1,
    ));
    if k + 1 < n {
        lemma_committing_succeeds(next, base, fault - 1);
    } else {
        assert(run(next, committed(batch, base, n), fault - 1) == (
            next,
            committed(batch, base, n),
        ));
    }
}

proof fn lemma_undone_placed(batch: Seq<EntryView>, base: Map<Seq<char>, int>, k: int)
    requires
        targets_free(batch, base),
        undo_in_order(batch),
        stageable(batch, base, batch.len() as int),
        0 <= k <= batch.len(),
    ensures
        placed(base, origins_of(batch), origins_of(batch).take(k) + targets_of(batch).skip(k)),
        k < batch.len() ==> !(origins_of(batch).take(k) + targets_of(batch).skip(k)).contains(
            batch[k].origin,
        ),
        k < batch.len() ==> (origins_of(batch).take(k) + targets_of(batch).skip(k))[k]
            == batch[k].target,
{
    let homes = origins_of(batch);
    let places = origins_of(batch).take(k) + targets_of(batch).skip(k);
    assert forall|j: int| 0 <= j < batch.len() implies homes[j] == batch[j].origin && places[j]
        == if j < k {
        batch[j].origin
    } else {
        batch[j].target
    } by {}
    assert forall|j: int| 0 <= j < places.len() implies !base.dom().contains(
        #[trigger] places[j],
    ) || homes.contains(places[j]) by {
        if j < k {
            assert(homes[j] == places[j]);
        }
    }
    assert(places.no_duplicates()) by {
        assert forall|i: int, j: int|
            0 <= i < places.len() && 0 <= j < places.len() && i != j implies places[i]
            != places[j] by {
            assert(places[i] == if i < k { batch[i].origin } else { batch[i].target });
            assert(places[j] == if j < k { batch[j].origin } else { batch[j].target });
        }
    }
    if k < batch.len() {
        if places.contains(batch[k].origin) {
            let j = places.index_of(batch[k].origin);
            assert(places[j] == batch[k].origin);
        }
    }
}

/// With nothing in the way, the undo pass puts every file back.
proof fn lemma_undo_succeeds(state: UndoView, batch: Seq<EntryView>, base: Map<Seq<char>, int>)
    requires
        targets_free(batch, base),
        undo_in_order(batch),
        stageable(batch, base, batch.len() as int),
        state.pairs == undo_record(batch),
        state.next <= batch.len(),
        state.probing,
    ensures
        undo_run(state, undone(batch, base, state.next as int)) == (
            UndoView { next: batch.len(), ..state },
            base,
        ),
    decreases batch.len() - state.next,
{
    let k = state.next as int;
    let n = batch.len() as int;
    let homes = origins_of(batch);
    let places = origins_of(batch).take(k) + targets_of(batch).skip(k);
    if k < n {
        lemma_undone_placed(batch, base, k);
        assert(homes[k] == batch[k].origin);
        lemma_layout_move(base, homes, places, k, batch[k].origin);
        assert(places.update(k, batch[k].origin) =~= origins_of(batch).take(k + 1) + targets_of(
            batch,
        ).skip(k + 1));
        let fs = undone(batch, base, k);
        let asked = state.probed(true);
        let next = asked.moved(true, Seq::empty());
        assert(state.pairs[k].target == batch[k].target);
        assert(state.pairs[k].origin == batch[k].origin);
        assert(undo_run(state, fs) == undo_run(asked, fs));
        assert(undo_run(asked, fs) == undo_run(next, undone(batch, base, k + 1)));
        lemma_undo_succeeds(next, batch, base);
    } else {
        assert(places =~= homes);
        assert forall|j: int| 0 <= j < homes.len() implies base.dom().contains(
            #[trigger] homes[j],
        ) by {
            assert(homes[j] == batch[j].origin);
        }
        lemma_layout_home(base, homes);
    }
}

/// Round trip: where the origins of a batch are different files, its
/// temporary and final paths are free, and no entry ends up at the origin of
/// an earlier one, the run commits, and one undo pass after it puts every
/// file back where it was, with nothing left at any temporary or final path
/// and no file missed.
pub proof fn law_round_trip(batch: Seq<EntryView>, fs: Map<Seq<char>, int>)
    requires
        batch.len() <= usize::MAX,
        stageable(batch, fs, batch.len() as int),
        parking_free(batch, fs),
        targets_free(batch, fs),
        undo_in_order(batch),
    ensures
        ({
            let done = run(ExecutorView::start(batch), fs, -1);
            let back = undo_run(UndoView::start(undo_record(batch)), done.1);
            &&& done.0.outcome() == Some(
                if batch.len() == 0 {
                    OutcomeView::NothingToDo
                } else {
                    OutcomeView::Committed
                },
            )
            &&& back.0.request() is None
            &&& back.0.issues.len() == 0
            &&& back.1 == fs
        }),
{
    let begin = ExecutorView::start(batch);
    let n = batch.len() as int;
    let undo = UndoView::start(undo_record(batch));
    if n == 0 {
        assert(origins_of(batch).take(0) + targets_of(batch).skip(0) =~= origins_of(batch));
        lemma_undo_succeeds(undo, batch, fs);
    } else {
        assert(origins_of(batch).take(0) =~= Seq::empty());
        assert(temps_of(batch).take(0) =~= Seq::empty());
        lemma_layout_empty(fs);
        lemma_staging_succeeds(begin, fs, -1);
        let parked = ExecutorView { phase: Phase::Committing(0), ..begin };
        assert(staged(batch, fs, n) == committed(batch, fs, 0)) by {
            assert(origins_of(batch).take(n) =~= origins_of(batch));
            assert(temps_of(batch).take(n) =~= targets_of(batch).take(0) + temps_of(batch).skip(
                0,
            ));
        }
        lemma_committing_succeeds(parked, fs, -1 - n);
        assert(committed(batch, fs, n) == undone(batch, fs, 0)) by {
            assert(targets_of(batch).take(n) + temps_of(batch).skip(n) =~= origins_of(
                batch,
            ).take(0) + targets_of(batch).skip(0));
        }
        lemma_undo_succeeds(undo, batch, fs);
    }
}

/// Nothing to do: where every file of the list comes out as left alone, the
/// batch is empty and the run over it ends at once, without a move and with
/// the model unchanged. Its outcome is `NothingToDo`, on which the engine
/// leaves the undo stack as it is.
pub proof fn law_noops_change_nothing(
    items: Seq<ItemView>,
    strategy: CollisionStrategy,
    present: Set<Seq<char>>,
    max: nat,
    stamp: nat,
    fs: Map<Seq<char>, int>,
    fault: int,
)
    requires
        forall|i: int|
            0 <= i < items.len() ==> resolve(
                desired_of(#[trigger] items[i]),
                items[i].origin,
                strategy,
                present,
                max,
            ) == ResolutionView::NoOp,
    ensures
        ({
            let plan = planned(items, strategy, present, max, stamp, items.len());
            let begin = ExecutorView::start(plan.entries);
            &&& plan.failed is None
            &&& plan.entries.len() == 0
            &&& begin.request() is None
            &&& begin.outcome() == Some(OutcomeView::NothingToDo)
            &&& run(begin, fs, fault) == (begin, fs)
        }),
{
    lemma_noop_plan(items, strategy, present, max, stamp, items.len());
}

proof fn lemma_staging_fault(state: ExecutorView, base: Map<Seq<char>, int>, fault: int)
    requires
        state.batch.len() <= usize::MAX,
        parking_free(state.batch, base),
        state.failure is None,
        0 <= fault,
        state.phase matches Phase::Staging(k) && k + fault < state.batch.len() && stageable(
            state.batch,
            base,
            k + fault,
        ),
    ensures
        ({
            let k = state.phase->Staging_0 as int;
            let end = run(state, staged(state.batch, base, k), fault);
            &&& end.0.outcome() == Some(
                OutcomeView::StageFailed {
                    position: (k + fault) as nat,
                    origin: state.batch[k + fault].origin,
                    temp: state.batch[k + fault].temp,
                    error: Seq::empty(),
                },
            )
            &&& end.1 == base
        }),
    decreases fault,
{
    let batch = state.batch;
    let k = state.phase->Staging_0 as int;
    let fs = staged(batch, base, k);
    if fault > 0 {
        assert(stageable(batch, base, k + 1));
        lemma_stage_step(batch, base, k);
        let next = state.step(true, Seq::empty());
        assert(run(state, fs, fault) == run(next, staged(batch, base, k + 1), fault - 1));
        lemma_staging_fault(next, base, fault - 1);
    } else {
        let next = state.step(false, Seq::empty());
        assert(run(state, fs, fault) == run(next, fs, fault - 1));
        if k == 0 {
            assert(origins_of(batch).take(0) =~= Seq::empty());
            assert(temps_of(batch).take(0) =~= Seq::empty());
            lemma_layout_empty(base);
        } else {
            lemma_unstaging(next, base, fs, fault - 1);
        }
    }
}

/// Rollback of the first phase, move by move: where the temporary paths of
/// the batch are free and the origins before position `k` are different
/// files, a run whose staging move at `k` fails ends with that failure, and
/// with every file where it was and nothing at any temporary path.
pub proof fn law_stage_failure_at(batch: Seq<EntryView>, fs: Map<Seq<char>, int>, k: int)
    requires
        batch.len() <= usize::MAX,
        0 <= k < batch.len(),
        parking_free(batch, fs),
        stageable(batch, fs, k),
    ensures
        ({
            let end = run(ExecutorView::start(batch), fs, k);
            &&& end.0.outcome() == Some(
                OutcomeView::StageFailed {
                    position: k as nat,
                    origin: batch[k].origin,
                    temp: batch[k].temp,
                    error: Seq::empty(),
                },
            )
            &&& end.1 == fs
        }),
{
    assert(origins_of(batch).take(0) =~= Seq::empty());
    assert(temps_of(batch).take(0) =~= Seq::empty());
    lemma_layout_empty(fs);
    lemma_staging_fault(ExecutorView::start(batch), fs, k);
}

/// Whether the run ended with a failed commit move.
pub open spec fn commit_failed(state: ExecutorView) -> bool {
    state.outcome() matches Some(OutcomeView::CommitFailed { .. })
}

/// The model in which the first `i` entries are back at their origins, those
/// from `i` up to `f` are at their final paths and the others are parked.
pub open spec fn reverted(batch: Seq<EntryView>, base: Map<Seq<char>, int>, i: int, f: int) -> Map<
    Seq<char>,
    int,
> {
    layout(
        base,
        origins_of(batch),
        origins_of(batch).take(i) + targets_of(batch).subrange(i, f) + temps_of(batch).skip(f),
    )
}

proof fn lemma_reverted_placed(batch: Seq<EntryView>, base: Map<Seq<char>, int>, i: int, f: int)
    requires
        parking_free(batch, base),
        targets_free(batch, base),
        undo_in_order(batch),
        stageable(batch, base, batch.len() as int),
        0 <= i <= f <= batch.len(),
    ensures
        ({
            let places = origins_of(batch).take(i) + targets_of(batch).subrange(i, f) + temps_of(
                batch,
            ).skip(f);
            &&& placed(base, origins_of(batch), places)
            &&& forall|j: int|
                0 <= j < batch.len() ==> #[trigger] places[j] == if j < i {
                    batch[j].origin
                } else if j < f {
                    batch[j].target
                } else {
                    batch[j].temp
                }
            &&& i < batch.len() ==> !places.contains(batch[i].origin)
        }),
{
    let homes = origins_of(batch);
    let places = origins_of(batch).take(i) + targets_of(batch).subrange(i, f) + temps_of(
        batch,
    ).skip(f);
    assert forall|j: int| 0 <= j < batch.len() implies homes[j] == batch[j].origin
        && #[trigger] places[j] == if j < i {
        batch[j].origin
    } else if j < f {
        batch[j].target
    } else {
        batch[j].temp
    } by {}
    assert forall|j: int| 0 <= j < places.len() implies !base.dom().contains(
        #[trigger] places[j],
    ) || homes.contains(places[j]) by {
        if j < i {
            assert(homes[j] == places[j]);
        }
    }
    assert(places.no_duplicates()) by {
        assert forall|a: int, b: int|
            0 <= a < places.len() && 0 <= b < places.len() && a != b implies places[a]
            != places[b] by {
            assert(places[a] == if a < i {
                batch[a].origin
            } else if a < f {
                batch[a].target
            } else {
                batch[a].temp
            });
            assert(places[b] == if b < i {
                batch[b].origin
            } else if b < f {
                batch[b].target
            } else {
                batch[b].temp
            });
        }
    }
    if i < batch.len() {
        if places.contains(batch[i].origin) {
            let j = places.index_of(batch[i].origin);
            assert(places[j] == batch[i].origin);
            assert(places[j] == if j < i {
                batch[j].origin
            } else if j < f {
                batch[j].target
            } else {
                batch[j].temp
            });
        }
    }
}

/// Taking the parked files back to their origins puts the model back to the
/// base.
proof fn lemma_restoring(state: ExecutorView, base: Map<Seq<char>, int>, fault: int)
    requires
        state.batch.len() <= usize::MAX,
        parking_free(state.batch, base),
        targets_free(state.batch, base),
        undo_in_order(state.batch),
        stageable(state.batch, base, state.batch.len() as int),
        state.phase matches Phase::Restoring(c) && c < state.batch.len(),
    ensures
        ({
            let c = state.phase->Restoring_0 as int;
            run(state, reverted(state.batch, base, c, c), fault) == (
                ExecutorView { phase: Phase::Finished, ..state },
                base,
            )
        }),
    decreases moves_left(state),
{
    let batch = state.batch;
    let c = state.phase->Restoring_0 as int;
    let n = batch.len() as int;
    let homes = origins_of(batch);
    let places = origins_of(batch).take(c) + targets_of(batch).subrange(c, c) + temps_of(
        batch,
    ).skip(c);
    let home = batch[c].origin;
    lemma_reverted_placed(batch, base, c, c);
    assert(homes[c] == home);
    assert(places[c] == batch[c].temp);
    lemma_layout_move(base, homes, places, c, home);
    assert(places.update(c, home) =~= origins_of(batch).take(c + 1) + targets_of(batch).subrange(
        c + 1,
        c + 1,
    ) + temps_of(batch).skip(c + 1));
    let fs = reverted(batch, base, c, c);
    let next = state.step(true, Seq::empty());
    assert(run(state, fs, fault) == run(next, reverted(batch, base, c + 1, c + 1), fault - 1));
    if c + 1 < n {
        lemma_restoring(next, base, fault - 1);
    } else {
        assert(origins_of(batch).take(n) + targets_of(batch).subrange(n, n) + temps_of(
            batch,
        ).skip(n) =~= homes);
        assert forall|j: int| 0 <= j < homes.len() implies base.dom().contains(
            #[trigger] homes[j],
        ) by {
            assert(homes[j] == batch[j].origin);
        }
        lemma_layout_home(base, homes);
    }
}

/// Taking the committed files back to their origins, and then the parked
/// ones, puts the model back to the base.
proof fn lemma_reverting(state: ExecutorView, base: Map<Seq<char>, int>, fault: int)
    requires
        state.batch.len() <= usize::MAX,
        parking_free(state.batch, base),
        targets_free(state.batch, base),
        undo_in_order(state.batch),
        stageable(state.batch, base, state.batch.len() as int),
        state.phase matches Phase::Reverting(i, f) && i < f < state.batch.len(),
    ensures
        ({
            let i = state.phase->Reverting_0 as int;
            let f = state.phase->Reverting_1 as int;
            run(state, reverted(state.batch, base, i, f), fault) == (
                ExecutorView { phase: Phase::Finished, ..state },
                base,
            )
        }),
    decreases rank(state), moves_left(state),
{
    let batch = state.batch;
    let i = state.phase->Reverting_0 as int;
    let f = state.phase->Reverting_1 as int;
    let homes = origins_of(batch);
    let places = origins_of(batch).take(i) + targets_of(batch).subrange(i, f) + temps_of(
        batch,
    ).skip(f);
    let home = batch[i].origin;
    lemma_reverted_placed(batch, base, i, f);
    assert(homes[i] == home);
    assert(places[i] == batch[i].target);
    lemma_layout_move(base, homes, places, i, home);
    assert(places.update(i, home) =~= origins_of(batch).take(i + 1) + targets_of(batch).subrange(
        i + 1,
        f,
    ) + temps_of(batch).skip(f));
    let fs = reverted(batch, base, i, f);
    let next = state.step(true, Seq::empty());
    assert(run(state, fs, fault) == run(next, reverted(batch, base, i + 1, f), fault - 1));
    if i + 1 < f {
        lemma_reverting(next, base, fault - 1);
    } else {
        lemma_restoring(next, base, fault - 1);
    }
}

/// A run that is committing and ends with a failed commit move leaves the
/// model as the base.
proof fn lemma_committing(state: ExecutorView, base: Map<Seq<char>, int>, fault: int)
    requires
        state.batch.len() <= usize::MAX,
        parking_free(state.batch, base),
        targets_free(state.batch, base),
        undo_in_order(state.batch),
        stageable(state.batch, base, state.batch.len() as int),
        state.failure is None,
        state.phase matches Phase::Committing(k) && k < state.batch.len(),
    ensures
        ({
            let k = state.phase->Committing_0 as int;
            let end = run(state, committed(state.batch, base, k), fault);
            commit_failed(end.0) ==> end.1 == base
        }),
    decreases moves_left(state),
{
    let batch = state.batch;
    let k = state.phase->Committing_0 as int;
    let n = batch.len() as int;
    let homes = origins_of(batch);
    let places = targets_of(batch).take(k) + temps_of(batch).skip(k);
    let fs = committed(batch, base, k);
    lemma_committed_placed(batch, base, k);
    lemma_layout_move(base, homes, places, k, batch[k].target);
    if fault == 0 {
        let next = state.step(false, Seq::empty());
        assert(run(state, fs, fault) == run(next, fs, fault - 1));
        assert(places =~= origins_of(batch).take(0) + targets_of(batch).subrange(0, k)
            + temps_of(batch).skip(k));
        if k == 0 {
            lemma_restoring(next, base, fault - 1);
        } else {
            lemma_reverting(next, base, fault - 1);
        }
    } else {
        assert(places.update(k, batch[k].target) =~= targets_of(batch).take(k + 1) + temps_of(
            batch,
        ).skip(k + 1));
        let next = state.step(true, Seq::empty());
        assert(run(state, fs, fault) == run(next, committed(batch, base, k + 1), fault - 1));
        if k + 1 < n {
            lemma_committing(next, base, fault - 1);
        } else {
            assert(run(next, committed(batch, base, n), fault - 1) == (
                next,
                committed(batch, base, n),
            ));
        }
    }
}

/// Rollback of the second phase: where the origins of a batch are different
/// files, its temporary and final paths are free, and no entry ends up at the
/// origin of an earlier one, a run that ends with a failed commit move leaves
/// every file where it was, and nothing at any temporary or final path that
/// was free.
pub proof fn law_commit_failure_restores(batch: Seq<EntryView>, fs: Map<Seq<char>, int>, fault: int)
    requires
        batch.len() <= usize::MAX,
        stageable(batch, fs, batch.len() as int),
        parking_free(batch, fs),
        targets_free(batch, fs),
        undo_in_order(batch),
    ensures
        commit_failed(run(ExecutorView::start(batch), fs, fault).0) ==> run(
            ExecutorView::start(batch),
            fs,
            fault,
        ).1 == fs,
{
    let begin = ExecutorView::start(batch);
    let n = batch.len() as int;
    if n > 0 {
        if 0 <= fault < n {
            assert(stageable(batch, fs, fault));
            law_stage_failure_at(batch, fs, fault);
        } else {
            assert(origins_of(batch).take(0) =~= Seq::empty());
            assert(temps_of(batch).take(0) =~= Seq::empty());
            lemma_layout_empty(fs);
            lemma_staging_succeeds(begin, fs, fault);
            let parked = ExecutorView { phase: Phase::Committing(0), ..begin };
            assert(staged(batch, fs, n) == committed(batch, fs, 0)) by {
                assert(origins_of(batch).take(n) =~= origins_of(batch));
                assert(temps_of(batch).take(n) =~= targets_of(batch).take(0) + temps_of(
                    batch,
                ).skip(0));
            }
            lemma_committing(parked, fs, fault - n);
        }
    }
}

/// Round trip of a plan: a batch that was planned under `Skip` or `Suffix`
/// against what is there, whose origins are different files, whose temporary
/// paths are free and whose final paths differ from one another and from the
/// temporary paths, is committed by the run and taken back by one undo pass,
/// which leaves every file where it was.
pub proof fn law_plan_round_trip(
    items: Seq<ItemView>,
    strategy: CollisionStrategy,
    max: nat,
    stamp: nat,
    fs: Map<Seq<char>, int>,
)
    requires
        items.len() <= usize::MAX,
        !(strategy is Overwrite),
        ({
            let batch = planned(items, strategy, fs.dom(), max, stamp, items.len()).entries;
            &&& stageable(batch, fs, batch.len() as int)
            &&& forall|k: int| 0 <= k < batch.len() ==> !fs.dom().contains((#[trigger] batch[k]).temp)
            &&& forall|j: int, k: int|
                0 <= j < batch.len() && 0 <= k < batch.len() && j != k ==> (
                #[trigger] batch[j]).target != (#[trigger] batch[k]).target
            &&& forall|j: int, k: int|
                0 <= j < batch.len() && 0 <= k < batch.len() ==> (#[trigger] batch[j]).target != (
                #[trigger] batch[k]).temp
        }),
    ensures
        ({
            let batch = planned(items, strategy, fs.dom(), max, stamp, items.len()).entries;
            let done = run(ExecutorView::start(batch), fs, -1);
            let back = undo_run(UndoView::start(undo_record(batch)), done.1);
            &&& done.0.outcome() == Some(
                if batch.len() == 0 {
                    OutcomeView::NothingToDo
                } else {
                    OutcomeView::Committed
                },
            )
            &&& back.0.request() is None
            &&& back.0.issues.len() == 0
            &&& back.1 == fs
        }),
{
    let batch = planned(items, strategy, fs.dom(), max, stamp, items.len()).entries;
    lemma_plan_avoids_taken(items, strategy, fs.dom(), max, stamp, items.len());
    lemma_planned_entries(items, strategy, fs.dom(), max, stamp, items.len());
    lemma_entries_valid(batch, items, stamp, items.len());
    assert(parking_free(batch, fs));
    assert(targets_free(batch, fs));
    assert(undo_in_order(batch));
    law_round_trip(batch, fs);
}

} // verus!
