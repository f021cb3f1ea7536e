use std::collections::{BTreeMap, BTreeSet};

use bulk_rename::batch::{Move, RenameEntry};
use bulk_rename::engine::{find_template, Candidate, Renamer, DEFAULT_MAX_PROBES};
use bulk_rename::executor::{Executor, Outcome};
use bulk_rename::plan::{temp_path_of, PlanError, PlanItem, Planner};
use bulk_rename::resolve::{candidate_path, decide, Decision, Resolution, Resolver};
use bulk_rename::template::{Block, CollisionStrategy, FileEntry, TemplateError, Timestamp};
use bulk_rename::undo::{record_of, Renamed, UndoIssue, UndoRequest, UndoRun};

/// A filesystem for the tests: paths and what is at them.
struct Disk {
    files: BTreeMap<String, u32>,
    /// Paths that cannot be moved to.
    locked: BTreeSet<String>,
    moves: Vec<(String, String)>,
}

impl Disk {
    fn with(paths: &[&str]) -> Disk {
        let mut files = BTreeMap::new();
        for (i, p) in paths.iter().enumerate() {
            files.insert(p.to_string(), i as u32);
        }
        Disk { files, locked: BTreeSet::new(), moves: Vec::new() }
    }

    fn lock(&mut self, path: &str) {
        self.locked.insert(path.to_string());
    }

    fn has(&self, path: &str) -> bool {
        self.files.contains_key(path)
    }

    fn rename(&mut self, from: &str, to: &str) -> Result<(), String> {
        self.moves.push((from.to_string(), to.to_string()));
        if self.locked.contains(to) {
            return Err(format!("{} is locked", to));
        }
        match self.files.remove(from) {
            Some(id) => {
                self.files.insert(to.to_string(), id);
                Ok(())
            }
            None => Err(format!("{} not found", from)),
        }
    }

    fn paths(&self) -> Vec<String> {
        self.files.keys().cloned().collect()
    }
}

fn now() -> Timestamp {
    Timestamp { seconds: 0, nanos: 0, offset_seconds: 0 }
}

fn items(pairs: &[(&str, &str)]) -> Vec<PlanItem> {
    pairs.iter().map(|(o, n)| PlanItem { origin: o.to_string(), name: n.to_string() }).collect()
}

fn entry(index: usize, origin: &str, temp: &str, target: &str) -> RenameEntry {
    RenameEntry {
        index,
        origin: origin.to_string(),
        temp: temp.to_string(),
        target: target.to_string(),
    }
}

fn plan(disk: &Disk, planner: &mut Planner) {
    while let Some(path) = planner.request() {
        planner.answer(disk.has(&path));
    }
}

fn execute(disk: &mut Disk, run: &mut Executor) {
    while let Some(Move { from, to }) = run.request() {
        run.answer(disk.rename(&from, &to));
    }
}

fn undo(disk: &mut Disk, run: &mut UndoRun) {
    while let Some(request) = run.request() {
        match request {
            UndoRequest::Probe(path) => run.probed(disk.has(&path)),
            UndoRequest::Move(Move { from, to }) => run.moved(disk.rename(&from, &to)),
        }
    }
}

fn resolve_on(disk: &Disk, desired: &str, origin: &str, strategy: CollisionStrategy, max: u32) -> Resolution {
    let mut resolver = Resolver::new(desired.to_string(), origin.to_string(), strategy, max);
    while let Some(path) = resolver.request() {
        resolver.answer(disk.has(&path));
    }
    resolver.resolution().unwrap()
}

fn engine_with(paths: &[&str]) -> Renamer {
    let mut engine = Renamer::default();
    let candidates: Vec<Candidate> =
        paths.iter().map(|p| Candidate { path: p.to_string(), is_file: true }).collect();
    engine.add_files(&candidates);
    engine
}

/// A whole pass of the engine on the disk.
fn rename_all(engine: &mut Renamer, disk: &mut Disk, stamp: u128) -> Result<Outcome, PlanError> {
    let mut planner = engine.execute_rename(now(), stamp).unwrap();
    plan(disk, &mut planner);
    let batch = planner.finish()?;
    let mut run = Executor::new(batch);
    execute(disk, &mut run);
    Ok(engine.finish_rename(run).unwrap())
}

#[test]
fn candidates_are_numbered_in_brackets() {
    assert_eq!(candidate_path("/d/x.txt", 0), "/d/x.txt");
    assert_eq!(candidate_path("/d/x.txt", 1), "/d/x (1).txt");
    assert_eq!(candidate_path("/d/x.txt", 12), "/d/x (12).txt");
    assert_eq!(candidate_path("x", 4294967295), "x (4294967295)");
}

#[test]
fn suffix_takes_the_first_free_name() {
    let disk = Disk::with(&["x.txt"]);
    assert_eq!(
        resolve_on(&disk, "x.txt", "y.txt", CollisionStrategy::Suffix, 10),
        Resolution::Target("x (1).txt".to_string())
    );
    let disk = Disk::with(&["x.txt", "x (1).txt"]);
    assert_eq!(
        resolve_on(&disk, "x.txt", "y.txt", CollisionStrategy::Suffix, 10),
        Resolution::Target("x (2).txt".to_string())
    );
    let disk = Disk::with(&["x.txt", "x (2).txt"]);
    assert_eq!(
        resolve_on(&disk, "x.txt", "y.txt", CollisionStrategy::Suffix, 10),
        Resolution::Target("x (1).txt".to_string())
    );
}

#[test]
fn suffix_takes_a_free_name_as_it_is() {
    let disk = Disk::with(&["y.txt"]);
    assert_eq!(
        resolve_on(&disk, "x.txt", "y.txt", CollisionStrategy::Suffix, 10),
        Resolution::Target("x.txt".to_string())
    );
}

#[test]
fn suffix_gives_up_at_the_cap() {
    let disk = Disk::with(&["x.txt", "x (1).txt", "x (2).txt", "x (3).txt"]);
    assert_eq!(
        resolve_on(&disk, "x.txt", "y.txt", CollisionStrategy::Suffix, 3),
        Resolution::Unresolved
    );
    assert_eq!(
        resolve_on(&disk, "x.txt", "y.txt", CollisionStrategy::Suffix, 4),
        Resolution::Target("x (4).txt".to_string())
    );
    assert_eq!(
        resolve_on(&disk, "x.txt", "y.txt", CollisionStrategy::Suffix, 0),
        Resolution::Unresolved
    );
}

#[test]
fn suffix_renames_a_file_that_keeps_its_name() {
    let disk = Disk::with(&["x.txt"]);
    assert_eq!(
        resolve_on(&disk, "x.txt", "x.txt", CollisionStrategy::Suffix, 10),
        Resolution::Target("x (1).txt".to_string())
    );
}

#[test]
fn skip_leaves_the_file_when_the_name_is_taken() {
    let disk = Disk::with(&["x.txt", "y.txt"]);
    assert_eq!(resolve_on(&disk, "x.txt", "y.txt", CollisionStrategy::Skip, 10), Resolution::NoOp);
    assert_eq!(resolve_on(&disk, "y.txt", "y.txt", CollisionStrategy::Skip, 10), Resolution::NoOp);
    assert_eq!(
        resolve_on(&disk, "z.txt", "y.txt", CollisionStrategy::Skip, 10),
        Resolution::Target("z.txt".to_string())
    );
}

#[test]
fn overwrite_asks_nothing() {
    let resolver =
        Resolver::new("x.txt".to_string(), "y.txt".to_string(), CollisionStrategy::Overwrite, 10);
    assert_eq!(resolver.request(), None);
    assert_eq!(resolver.resolution(), Some(Resolution::Target("x.txt".to_string())));
    let same =
        Resolver::new("y.txt".to_string(), "y.txt".to_string(), CollisionStrategy::Overwrite, 10);
    assert_eq!(same.resolution(), Some(Resolution::NoOp));
}

#[test]
fn resolver_asks_about_one_path_at_a_time() {
    let mut resolver =
        Resolver::new("x.txt".to_string(), "y.txt".to_string(), CollisionStrategy::Suffix, 10);
    assert_eq!(resolver.request(), Some("x.txt".to_string()));
    assert_eq!(resolver.resolution(), None);
    resolver.answer(true);
    assert_eq!(resolver.request(), Some("x (1).txt".to_string()));
    resolver.answer(true);
    assert_eq!(resolver.request(), Some("x (2).txt".to_string()));
    resolver.answer(false);
    assert_eq!(resolver.request(), None);
    assert_eq!(resolver.resolution(), Some(Resolution::Target("x (2).txt".to_string())));
    resolver.answer(true);
    assert_eq!(resolver.resolution(), Some(Resolution::Target("x (2).txt".to_string())));
}

#[test]
fn decisions_follow_the_strategy() {
    assert_eq!(
        decide("x", "y", CollisionStrategy::Suffix, 5, 2, true),
        Decision::Retry(3)
    );
    assert_eq!(
        decide("x", "y", CollisionStrategy::Suffix, 5, 5, true),
        Decision::Final(Resolution::Unresolved)
    );
    assert_eq!(
        decide("x", "y", CollisionStrategy::Suffix, 5, 2, false),
        Decision::Final(Resolution::Target("x (2)".to_string()))
    );
    assert_eq!(
        decide("x", "y", CollisionStrategy::Skip, 5, 0, true),
        Decision::Final(Resolution::NoOp)
    );
    assert_eq!(
        decide("x", "y", CollisionStrategy::Overwrite, 5, 0, true),
        Decision::Final(Resolution::Target("x".to_string()))
    );
    assert_eq!(
        decide("y", "y", CollisionStrategy::Skip, 5, 0, false),
        Decision::Final(Resolution::NoOp)
    );
}

#[test]
fn temp_paths_lie_beside_the_origin() {
    assert_eq!(temp_path_of("/d/e/x.txt", 123, 7), "/d/e/.tmp-123-7.tmp");
    assert_eq!(temp_path_of("x.txt", 0, 0), ".tmp-0-0.tmp");
    assert_eq!(
        temp_path_of("/x", u128::MAX, 10),
        "/.tmp-340282366920938463463374607431768211455-10.tmp"
    );
}

#[test]
fn planner_builds_the_batch_in_list_order() {
    let disk = Disk::with(&["/d/a.txt", "/d/b.txt", "/d/1.txt"]);
    let mut planner = Planner::new(
        items(&[("/d/a.txt", "1.txt"), ("/d/b.txt", "2.txt")]),
        CollisionStrategy::Suffix,
        10,
        99,
    );
    plan(&disk, &mut planner);
    assert_eq!(
        planner.finish(),
        Ok(vec![
            entry(0, "/d/a.txt", "/d/.tmp-99-0.tmp", "/d/1 (1).txt"),
            entry(1, "/d/b.txt", "/d/.tmp-99-1.tmp", "/d/2.txt"),
        ])
    );
}

#[test]
fn planner_leaves_out_files_that_stay() {
    let disk = Disk::with(&["/d/a.txt", "/d/b.txt", "/d/c.txt"]);
    let mut planner = Planner::new(
        items(&[("/d/a.txt", "b.txt"), ("/d/b.txt", "b.txt"), ("/d/c.txt", "d.txt")]),
        CollisionStrategy::Skip,
        10,
        5,
    );
    plan(&disk, &mut planner);
    assert_eq!(planner.finish(), Ok(vec![entry(2, "/d/c.txt", "/d/.tmp-5-2.tmp", "/d/d.txt")]));
}

#[test]
fn planner_under_overwrite_is_complete_at_once() {
    let planner = Planner::new(
        items(&[("/d/a.txt", "b.txt"), ("/d/b.txt", "b.txt"), ("/d/c.txt", "a.txt")]),
        CollisionStrategy::Overwrite,
        10,
        5,
    );
    assert!(planner.is_finished());
    assert_eq!(planner.request(), None);
    assert_eq!(
        planner.finish(),
        Ok(vec![
            entry(0, "/d/a.txt", "/d/.tmp-5-0.tmp", "/d/b.txt"),
            entry(2, "/d/c.txt", "/d/.tmp-5-2.tmp", "/d/a.txt"),
        ])
    );
}

#[test]
fn planner_reports_an_unresolved_collision() {
    let disk = Disk::with(&["/d/a", "/d/x", "/d/x (1)", "/d/x (2)"]);
    let mut planner = Planner::new(
        items(&[("/d/a", "y"), ("/d/a", "x"), ("/d/a", "z")]),
        CollisionStrategy::Suffix,
        2,
        5,
    );
    plan(&disk, &mut planner);
    assert_eq!(planner.finish(), Err(PlanError::CollisionUnresolved { index: 1 }));
}

#[test]
fn planner_that_is_waiting_has_no_batch() {
    let planner = Planner::new(items(&[("/d/a", "y")]), CollisionStrategy::Suffix, 2, 5);
    assert!(!planner.is_finished());
    assert_eq!(planner.request(), Some("/d/y".to_string()));
    assert_eq!(planner.finish(), Err(PlanError::Pending));
}

#[test]
fn executor_stages_then_commits() {
    let mut disk = Disk::with(&["/d/a", "/d/b"]);
    let mut run = Executor::new(vec![
        entry(0, "/d/a", "/d/t0", "/d/b"),
        entry(1, "/d/b", "/d/t1", "/d/c"),
    ]);
    assert_eq!(run.outcome(), None);
    execute(&mut disk, &mut run);
    assert_eq!(run.outcome(), Some(Outcome::Committed));
    assert_eq!(
        disk.moves,
        vec![
            ("/d/a".to_string(), "/d/t0".to_string()),
            ("/d/b".to_string(), "/d/t1".to_string()),
            ("/d/t0".to_string(), "/d/b".to_string()),
            ("/d/t1".to_string(), "/d/c".to_string()),
        ]
    );
    assert_eq!(disk.files.get("/d/b"), Some(&0));
    assert_eq!(disk.files.get("/d/c"), Some(&1));
    assert_eq!(disk.paths(), vec!["/d/b".to_string(), "/d/c".to_string()]);
}

#[test]
fn executor_swaps_two_files() {
    let mut disk = Disk::with(&["/d/a", "/d/b"]);
    let mut run = Executor::new(vec![
        entry(0, "/d/a", "/d/t0", "/d/b"),
        entry(1, "/d/b", "/d/t1", "/d/a"),
    ]);
    execute(&mut disk, &mut run);
    assert_eq!(run.outcome(), Some(Outcome::Committed));
    assert_eq!(disk.files.get("/d/b"), Some(&0));
    assert_eq!(disk.files.get("/d/a"), Some(&1));
}

#[test]
fn empty_batch_is_nothing_to_do() {
    let mut disk = Disk::with(&["/d/a"]);
    let mut run = Executor::new(Vec::new());
    assert!(run.is_finished());
    assert_eq!(run.request(), None);
    execute(&mut disk, &mut run);
    assert_eq!(run.outcome(), Some(Outcome::NothingToDo));
    assert!(disk.moves.is_empty());
}

#[test]
fn failed_staging_is_rolled_back() {
    let mut disk = Disk::with(&["/d/a", "/d/b", "/d/c", "/d/other"]);
    disk.lock("/d/t2");
    let before = disk.files.clone();
    let mut run = Executor::new(vec![
        entry(0, "/d/a", "/d/t0", "/d/x"),
        entry(1, "/d/b", "/d/t1", "/d/y"),
        entry(2, "/d/c", "/d/t2", "/d/z"),
        entry(3, "/d/other", "/d/t3", "/d/w"),
    ]);
    execute(&mut disk, &mut run);
    assert_eq!(
        run.outcome(),
        Some(Outcome::StageFailed {
            position: 2,
            origin: "/d/c".to_string(),
            temp: "/d/t2".to_string(),
            error: "/d/t2 is locked".to_string(),
        })
    );
    assert_eq!(disk.files, before);
    assert_eq!(
        disk.moves,
        vec![
            ("/d/a".to_string(), "/d/t0".to_string()),
            ("/d/b".to_string(), "/d/t1".to_string()),
            ("/d/c".to_string(), "/d/t2".to_string()),
            ("/d/t1".to_string(), "/d/b".to_string()),
            ("/d/t0".to_string(), "/d/a".to_string()),
        ]
    );
}

#[test]
fn failed_staging_of_the_first_entry_moves_nothing() {
    let mut disk = Disk::with(&["/d/b"]);
    let before = disk.files.clone();
    let mut run = Executor::new(vec![
        entry(0, "/d/a", "/d/t0", "/d/x"),
        entry(1, "/d/b", "/d/t1", "/d/y"),
    ]);
    execute(&mut disk, &mut run);
    assert_eq!(
        run.outcome(),
        Some(Outcome::StageFailed {
            position: 0,
            origin: "/d/a".to_string(),
            temp: "/d/t0".to_string(),
            error: "/d/a not found".to_string(),
        })
    );
    assert_eq!(disk.files, before);
    assert_eq!(disk.moves.len(), 1);
}

#[test]
fn failed_commit_is_rolled_back() {
    let mut disk = Disk::with(&["/d/a", "/d/b", "/d/c"]);
    disk.lock("/d/y");
    let before = disk.files.clone();
    let mut run = Executor::new(vec![
        entry(0, "/d/a", "/d/t0", "/d/x"),
        entry(1, "/d/b", "/d/t1", "/d/y"),
        entry(2, "/d/c", "/d/t2", "/d/z"),
    ]);
    execute(&mut disk, &mut run);
    assert_eq!(
        run.outcome(),
        Some(Outcome::CommitFailed {
            position: 1,
            temp: "/d/t1".to_string(),
            target: "/d/y".to_string(),
            error: "/d/y is locked".to_string(),
        })
    );
    assert_eq!(disk.files, before);
    assert_eq!(
        disk.moves[3..].to_vec(),
        vec![
            ("/d/t0".to_string(), "/d/x".to_string()),
            ("/d/t1".to_string(), "/d/y".to_string()),
            ("/d/x".to_string(), "/d/a".to_string()),
            ("/d/t1".to_string(), "/d/b".to_string()),
            ("/d/t2".to_string(), "/d/c".to_string()),
        ]
    );
}

#[test]
fn failed_commit_of_the_first_entry_restores_the_parked_files() {
    let mut disk = Disk::with(&["/d/a", "/d/b"]);
    disk.lock("/d/x");
    let before = disk.files.clone();
    let mut run = Executor::new(vec![
        entry(0, "/d/a", "/d/t0", "/d/x"),
        entry(1, "/d/b", "/d/t1", "/d/y"),
    ]);
    execute(&mut disk, &mut run);
    assert!(matches!(run.outcome(), Some(Outcome::CommitFailed { position: 0, .. })));
    assert_eq!(disk.files, before);
}

#[test]
fn answers_after_the_end_change_nothing() {
    let mut disk = Disk::with(&["/d/a"]);
    let mut run = Executor::new(vec![entry(0, "/d/a", "/d/t0", "/d/x")]);
    execute(&mut disk, &mut run);
    run.answer(Err("late".to_string()));
    run.answer(Ok(()));
    assert_eq!(run.outcome(), Some(Outcome::Committed));
    assert_eq!(run.batch(), &vec![entry(0, "/d/a", "/d/t0", "/d/x")]);
}

#[test]
fn undo_puts_the_files_back() {
    let mut disk = Disk::with(&["/d/a", "/d/b", "/d/keep"]);
    let before = disk.files.clone();
    let batch = vec![entry(0, "/d/a", "/d/t0", "/d/x"), entry(1, "/d/b", "/d/t1", "/d/y")];
    let record = record_of(&batch);
    assert_eq!(
        record,
        vec![
            Renamed { origin: "/d/a".to_string(), target: "/d/x".to_string() },
            Renamed { origin: "/d/b".to_string(), target: "/d/y".to_string() },
        ]
    );
    let mut run = Executor::new(batch);
    execute(&mut disk, &mut run);
    assert_ne!(disk.files, before);
    let mut back = UndoRun::new(record);
    undo(&mut disk, &mut back);
    assert!(back.is_finished());
    assert!(back.issues().is_empty());
    assert_eq!(disk.files, before);
}

#[test]
fn undo_passes_over_missing_files() {
    let mut disk = Disk::with(&["/d/y", "/d/z"]);
    disk.lock("/d/c");
    let mut back = UndoRun::new(vec![
        Renamed { origin: "/d/a".to_string(), target: "/d/x".to_string() },
        Renamed { origin: "/d/b".to_string(), target: "/d/y".to_string() },
        Renamed { origin: "/d/c".to_string(), target: "/d/z".to_string() },
    ]);
    undo(&mut disk, &mut back);
    assert_eq!(
        back.issues(),
        vec![
            UndoIssue::Missing { target: "/d/x".to_string() },
            UndoIssue::Failed {
                target: "/d/z".to_string(),
                origin: "/d/c".to_string(),
                error: "/d/c is locked".to_string(),
            },
        ]
    );
    assert_eq!(disk.paths(), vec!["/d/b".to_string(), "/d/z".to_string()]);
}

#[test]
fn undo_asks_before_it_moves() {
    let mut back =
        UndoRun::new(vec![Renamed { origin: "/d/a".to_string(), target: "/d/x".to_string() }]);
    assert_eq!(back.request(), Some(UndoRequest::Probe("/d/x".to_string())));
    back.moved(Ok(()));
    assert_eq!(back.request(), Some(UndoRequest::Probe("/d/x".to_string())));
    back.probed(true);
    assert_eq!(
        back.request(),
        Some(UndoRequest::Move(Move { from: "/d/x".to_string(), to: "/d/a".to_string() }))
    );
    back.probed(false);
    assert!(!back.is_finished());
    back.moved(Ok(()));
    assert!(back.is_finished());
    assert_eq!(back.request(), None);
}

#[test]
fn engine_starts_with_the_default_template() {
    let engine = Renamer::default();
    assert!(engine.files.is_empty());
    assert_eq!(engine.selected_idx, None);
    assert_eq!(
        engine.blocks,
        vec![
            Block::Number { width: 4, start: 1, step: 1 },
            Block::Literal("_".to_string()),
            Block::Original,
        ]
    );
    assert_eq!(engine.collision, CollisionStrategy::Suffix);
    assert!(engine.use_mtime_for_date);
    assert_eq!(engine.max_probes, DEFAULT_MAX_PROBES);
    assert_eq!(engine.undo_depth(), 0);
}

#[test]
fn only_regular_files_are_added() {
    let mut engine = engine_with(&["/d/a"]);
    engine.add_files(&vec![
        Candidate { path: "/d/dir".to_string(), is_file: false },
        Candidate { path: "/d/b".to_string(), is_file: true },
        Candidate { path: "/d/a".to_string(), is_file: true },
    ]);
    assert_eq!(
        engine.files,
        vec![
            FileEntry { path: "/d/a".to_string() },
            FileEntry { path: "/d/b".to_string() },
            FileEntry { path: "/d/a".to_string() },
        ]
    );
}

#[test]
fn selected_file_moves_up_and_down() {
    let mut engine = engine_with(&["a", "b", "c"]);
    engine.move_up();
    engine.move_down();
    assert_eq!(engine.files, engine_with(&["a", "b", "c"]).files);
    engine.selected_idx = Some(2);
    engine.move_up();
    assert_eq!(engine.files, engine_with(&["a", "c", "b"]).files);
    assert_eq!(engine.selected_idx, Some(1));
    engine.move_up();
    assert_eq!(engine.files, engine_with(&["c", "a", "b"]).files);
    assert_eq!(engine.selected_idx, Some(0));
    engine.move_up();
    assert_eq!(engine.files, engine_with(&["c", "a", "b"]).files);
    assert_eq!(engine.selected_idx, Some(0));
    engine.move_down();
    engine.move_down();
    assert_eq!(engine.files, engine_with(&["a", "b", "c"]).files);
    assert_eq!(engine.selected_idx, Some(2));
    engine.move_down();
    assert_eq!(engine.files, engine_with(&["a", "b", "c"]).files);
    assert_eq!(engine.selected_idx, Some(2));
    engine.selected_idx = Some(7);
    engine.move_up();
    engine.move_down();
    assert_eq!(engine.files, engine_with(&["a", "b", "c"]).files);
}

#[test]
fn selected_file_is_removed() {
    let mut engine = engine_with(&["a", "b", "c"]);
    engine.remove_selected();
    assert_eq!(engine.files.len(), 3);
    engine.selected_idx = Some(1);
    engine.remove_selected();
    assert_eq!(engine.files, engine_with(&["a", "c"]).files);
    assert_eq!(engine.selected_idx, None);
    engine.selected_idx = Some(2);
    engine.remove_selected();
    assert_eq!(engine.files, engine_with(&["a", "c"]).files);
    assert_eq!(engine.selected_idx, None);
    engine.selected_idx = Some(0);
    engine.clear_files();
    assert!(engine.files.is_empty());
    assert_eq!(engine.selected_idx, None);
}

#[test]
fn preview_pairs_old_and_new_names() {
    let engine = engine_with(&["/d/b.txt", "/e/a.txt"]);
    assert_eq!(
        engine.preview_table(now()),
        Ok(vec![
            ("b.txt".to_string(), "0001_b.txt".to_string()),
            ("a.txt".to_string(), "0002_a.txt".to_string()),
        ])
    );
    assert_eq!(
        engine.generate_targets(now()),
        Ok(vec!["0001_b.txt".to_string(), "0002_a.txt".to_string()])
    );
}

#[test]
fn engine_reports_a_bad_date_pattern() {
    let mut engine = engine_with(&["/d/b.txt"]);
    engine.blocks.push(Block::Date { format: "%Q".to_string() });
    assert_eq!(engine.preview_table(now()), Err(TemplateError::BadDatePattern { block: 3 }));
    assert!(matches!(
        engine.execute_rename(now(), 1),
        Err(TemplateError::BadDatePattern { block: 3 })
    ));
}

#[test]
fn engine_renames_and_undoes() {
    let mut disk = Disk::with(&["/d/b.txt", "/d/a.txt", "/d/other"]);
    let before = disk.files.clone();
    let mut engine = engine_with(&["/d/b.txt", "/d/a.txt"]);
    assert_eq!(rename_all(&mut engine, &mut disk, 42), Ok(Outcome::Committed));
    assert_eq!(
        disk.paths(),
        vec!["/d/0001_b.txt".to_string(), "/d/0002_a.txt".to_string(), "/d/other".to_string()]
    );
    assert_eq!(disk.files.get("/d/0001_b.txt"), before.get("/d/b.txt"));
    assert_eq!(disk.files.get("/d/0002_a.txt"), before.get("/d/a.txt"));
    assert_eq!(engine.undo_depth(), 1);
    let mut back = engine.undo().unwrap();
    undo(&mut disk, &mut back);
    assert!(back.issues().is_empty());
    assert_eq!(disk.files, before);
    assert_eq!(engine.undo_depth(), 0);
    assert!(engine.undo().is_none());
}

#[test]
fn engine_undoes_the_last_batch_first() {
    let mut disk = Disk::with(&["/d/a.txt"]);
    let mut engine = engine_with(&["/d/a.txt"]);
    assert_eq!(rename_all(&mut engine, &mut disk, 1), Ok(Outcome::Committed));
    engine.files = vec![FileEntry { path: "/d/0001_a.txt".to_string() }];
    assert_eq!(rename_all(&mut engine, &mut disk, 2), Ok(Outcome::Committed));
    assert_eq!(disk.paths(), vec!["/d/0001_0001_a.txt".to_string()]);
    assert_eq!(engine.undo_depth(), 2);
    let mut back = engine.undo().unwrap();
    undo(&mut disk, &mut back);
    assert_eq!(disk.paths(), vec!["/d/0001_a.txt".to_string()]);
    let mut back = engine.undo().unwrap();
    undo(&mut disk, &mut back);
    assert_eq!(disk.paths(), vec!["/d/a.txt".to_string()]);
    assert!(engine.undo().is_none());
}

#[test]
fn engine_adds_a_suffix_to_a_taken_name() {
    let mut disk = Disk::with(&["/d/a.txt", "/d/0001_a.txt", "/d/0001_a (1).txt"]);
    let mut engine = engine_with(&["/d/a.txt"]);
    assert_eq!(rename_all(&mut engine, &mut disk, 7), Ok(Outcome::Committed));
    assert_eq!(
        disk.paths(),
        vec![
            "/d/0001_a (1).txt".to_string(),
            "/d/0001_a (2).txt".to_string(),
            "/d/0001_a.txt".to_string(),
        ]
    );
    assert_eq!(disk.files.get("/d/0001_a (2).txt"), Some(&0));
}

#[test]
fn engine_skips_a_taken_name() {
    let mut disk = Disk::with(&["/d/a.txt", "/d/b.txt", "/d/0001_a.txt"]);
    let before = disk.files.clone();
    let mut engine = engine_with(&["/d/a.txt", "/d/b.txt"]);
    engine.collision = CollisionStrategy::Skip;
    assert_eq!(rename_all(&mut engine, &mut disk, 7), Ok(Outcome::Committed));
    assert_eq!(disk.files.get("/d/a.txt"), before.get("/d/a.txt"));
    assert_eq!(disk.files.get("/d/0001_a.txt"), before.get("/d/0001_a.txt"));
    assert_eq!(disk.files.get("/d/0002_b.txt"), before.get("/d/b.txt"));
    assert!(disk.moves.iter().all(|(from, to)| from != "/d/a.txt" && to != "/d/a.txt"));
    let mut back = engine.undo().unwrap();
    assert_eq!(back.request(), Some(UndoRequest::Probe("/d/0002_b.txt".to_string())));
    undo(&mut disk, &mut back);
    assert_eq!(disk.files, before);
    assert!(disk.moves.iter().all(|(from, to)| from != "/d/a.txt" && to != "/d/a.txt"));
}

#[test]
fn engine_overwrites_a_taken_name() {
    let mut disk = Disk::with(&["/d/a.txt", "/d/0001_a.txt"]);
    let mut engine = engine_with(&["/d/a.txt"]);
    engine.collision = CollisionStrategy::Overwrite;
    assert_eq!(rename_all(&mut engine, &mut disk, 7), Ok(Outcome::Committed));
    assert_eq!(disk.paths(), vec!["/d/0001_a.txt".to_string()]);
    assert_eq!(disk.files.get("/d/0001_a.txt"), Some(&0));
}

#[test]
fn engine_has_nothing_to_do_when_every_file_stays() {
    let mut disk = Disk::with(&["/d/a.txt", "/d/b.txt"]);
    let before = disk.files.clone();
    let mut engine = engine_with(&["/d/a.txt", "/d/b.txt"]);
    engine.blocks = vec![Block::Original];
    for strategy in [CollisionStrategy::Overwrite, CollisionStrategy::Skip] {
        engine.collision = strategy;
        assert_eq!(rename_all(&mut engine, &mut disk, 7), Ok(Outcome::NothingToDo));
        assert_eq!(disk.files, before);
        assert!(disk.moves.is_empty());
        assert_eq!(engine.undo_depth(), 0);
    }
    let mut none = Renamer::default();
    assert_eq!(rename_all(&mut none, &mut disk, 7), Ok(Outcome::NothingToDo));
    assert!(disk.moves.is_empty());
}

#[test]
fn engine_keeps_no_record_of_a_failed_run() {
    let mut disk = Disk::with(&["/d/a.txt", "/d/b.txt"]);
    disk.lock("/d/.tmp-7-1.tmp");
    let before = disk.files.clone();
    let mut engine = engine_with(&["/d/a.txt", "/d/b.txt"]);
    assert!(matches!(
        rename_all(&mut engine, &mut disk, 7),
        Ok(Outcome::StageFailed { position: 1, .. })
    ));
    assert_eq!(disk.files, before);
    assert_eq!(engine.undo_depth(), 0);
    assert!(engine.undo().is_none());
}

#[test]
fn engine_reports_an_unresolved_collision() {
    let mut disk = Disk::with(&["/d/a", "/d/0001_a", "/d/0001_a (1)"]);
    let mut engine = engine_with(&["/d/a"]);
    engine.max_probes = 1;
    assert_eq!(
        rename_all(&mut engine, &mut disk, 7),
        Err(PlanError::CollisionUnresolved { index: 0 })
    );
    assert!(disk.moves.is_empty());
}

#[test]
fn a_run_that_is_not_over_leaves_no_record() {
    let mut engine = engine_with(&["/d/a"]);
    let run = Executor::new(vec![entry(0, "/d/a", "/d/t", "/d/b")]);
    assert_eq!(engine.finish_rename(run), None);
    assert_eq!(engine.undo_depth(), 0);
}

#[test]
fn blocks_are_edited_in_place() {
    let mut engine = Renamer::default();
    let number = Block::Number { width: 4, start: 1, step: 1 };
    let under = Block::Literal("_".to_string());
    engine.move_block_up(0);
    engine.move_block_down(2);
    engine.move_block_up(3);
    engine.remove_block(3);
    engine.replace_block(3, Block::Original);
    assert_eq!(engine.blocks, vec![number.clone(), under.clone(), Block::Original]);
    engine.move_block_up(2);
    assert_eq!(engine.blocks, vec![number.clone(), Block::Original, under.clone()]);
    engine.move_block_down(0);
    assert_eq!(engine.blocks, vec![Block::Original, number.clone(), under.clone()]);
    engine.replace_block(1, Block::Date { format: "%Y".to_string() });
    engine.add_block(Block::Literal("x".to_string()));
    engine.remove_block(0);
    assert_eq!(
        engine.blocks,
        vec![Block::Date { format: "%Y".to_string() }, under, Block::Literal("x".to_string())]
    );
}

#[test]
fn templates_are_saved_under_their_name() {
    let mut engine = Renamer::default();
    assert!(!engine.save_template());
    assert!(engine.saved_templates.is_empty());
    engine.current_template_name = "photos".to_string();
    assert!(engine.save_template());
    engine.current_template_name = "music".to_string();
    engine.blocks = vec![Block::Original];
    engine.collision = CollisionStrategy::Skip;
    engine.use_mtime_for_date = false;
    assert!(engine.save_template());
    assert_eq!(engine.saved_templates.len(), 2);
    assert_eq!(find_template(&engine.saved_templates, "music"), Some(1));
    assert_eq!(find_template(&engine.saved_templates, "photos"), Some(0));
    assert_eq!(find_template(&engine.saved_templates, "films"), None);
    engine.current_template_name = "photos".to_string();
    engine.blocks = vec![Block::Literal("p".to_string())];
    assert!(engine.save_template());
    assert_eq!(engine.saved_templates.len(), 2);
    assert_eq!(engine.saved_templates[0].name, "photos");
    assert_eq!(engine.saved_templates[0].blocks, vec![Block::Literal("p".to_string())]);
    assert_eq!(engine.saved_templates[0].collision, CollisionStrategy::Skip);
    assert_eq!(engine.saved_templates[1].name, "music");
    assert_eq!(engine.saved_templates[1].blocks, vec![Block::Original]);
}

#[test]
fn saved_template_is_applied_by_name() {
    let mut engine = Renamer::default();
    engine.current_template_name = "default".to_string();
    assert!(engine.save_template());
    engine.blocks = vec![Block::Original];
    engine.collision = CollisionStrategy::Overwrite;
    engine.use_mtime_for_date = false;
    engine.current_template_name = "other".to_string();
    assert!(!engine.apply_template());
    assert_eq!(engine.blocks, vec![Block::Original]);
    engine.current_template_name = "default".to_string();
    assert!(engine.apply_template());
    assert_eq!(engine.blocks, Renamer::default().blocks);
    assert_eq!(engine.collision, CollisionStrategy::Suffix);
    assert!(engine.use_mtime_for_date);
    assert_eq!(engine.saved_templates.len(), 1);
}

#[test]
fn undo_in_batch_order_handles_a_shift_towards_the_end() {
    let mut disk = Disk::with(&["/d/1", "/d/2", "/d/3"]);
    let before = disk.files.clone();
    let batch = vec![
        entry(0, "/d/1", "/d/t0", "/d/2"),
        entry(1, "/d/2", "/d/t1", "/d/3"),
        entry(2, "/d/3", "/d/t2", "/d/4"),
    ];
    let record = record_of(&batch);
    let mut run = Executor::new(batch);
    execute(&mut disk, &mut run);
    assert_eq!(run.outcome(), Some(Outcome::Committed));
    assert_eq!(disk.files.get("/d/2"), Some(&0));
    assert_eq!(disk.files.get("/d/3"), Some(&1));
    assert_eq!(disk.files.get("/d/4"), Some(&2));
    let mut back = UndoRun::new(record);
    undo(&mut disk, &mut back);
    assert!(back.issues().is_empty());
    assert_eq!(disk.files, before);
}

#[test]
fn failed_commit_in_a_chain_is_rolled_back() {
    let mut disk = Disk::with(&["/d/1", "/d/2", "/d/3"]);
    disk.lock("/d/4");
    let before = disk.files.clone();
    let mut run = Executor::new(vec![
        entry(0, "/d/1", "/d/t0", "/d/2"),
        entry(1, "/d/2", "/d/t1", "/d/3"),
        entry(2, "/d/3", "/d/t2", "/d/4"),
    ]);
    execute(&mut disk, &mut run);
    assert!(matches!(run.outcome(), Some(Outcome::CommitFailed { position: 2, .. })));
    assert_eq!(disk.files, before);
}
