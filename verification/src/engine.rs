//! The rename engine: the list of files, the template that is being edited,
//! the saved templates and the stack of batches that can be undone.

use vstd::prelude::*;
use crate::executor::{Executor, Outcome, OutcomeView};
use crate::path::{file_name, file_name_of};
use crate::plan::{item_views, ItemView, PlanItem, Planner, PlannerView};
use crate::template::{
    block_views, dates_ok, file_paths, first_bad_date, generate_targets, segments_of,
    target_names, template_views, Block, BlockView, CollisionStrategy, FileEntry, Template,
    TemplateError, TemplateView, Timestamp,
};
use crate::text::{same_text, texts};
use crate::undo::{record_of, undo_record, RenamedView, UndoRun, UndoStack, UndoView};

verus! {

/// How many suffixes are tried for one file unless the engine is told
/// otherwise.
pub const DEFAULT_MAX_PROBES: u32 = 9999;

/// A path that may be added to the list, and whether a regular file is there.
#[derive(Debug, PartialEq, Eq)]
pub struct Candidate {
    pub path: String,
    pub is_file: bool,
}

/// The sequence with the elements at `i` and `j` exchanged.
pub open spec fn exchanged<T>(s: Seq<T>, i: int, j: int) -> Seq<T> {
    s.update(i, s[j]).update(j, s[i])
}

/// The paths of the candidates at which a regular file is, in their order.
pub open spec fn regular_paths(candidates: Seq<Candidate>) -> Seq<Seq<char>>
    decreases candidates.len(),
{
    if candidates.len() == 0 {
        Seq::empty()
    } else if candidates.last().is_file {
        regular_paths(candidates.drop_last()).push(candidates.last().path@)
    } else {
        regular_paths(candidates.drop_last())
    }
}

/// The items of a pass: each file with its new name.
pub open spec fn items_of(paths: Seq<Seq<char>>, names: Seq<Seq<char>>) -> Seq<ItemView> {
    Seq::new(paths.len(), |i: int| ItemView { origin: paths[i], name: names[i] })
}

/// Exchanges the elements at `i - 1` and `i`.
fn exchange_with_previous<T>(v: &mut Vec<T>, i: usize)
    requires
        0 < i < old(v).len(),
    ensures
        final(v)@ == exchanged(old(v)@, i - 1, i as int),
{
    let x = v.remove(i);
    v.insert(i - 1, x);
    assert(v@ =~= exchanged(old(v)@, i - 1, i as int));
}

/// A copy of a run of blocks.
pub fn clone_blocks(blocks: &Vec<Block>) -> (out: Vec<Block>)
    ensures
        block_views(out@) == block_views(blocks@),
{
    let mut out: Vec<Block> = Vec::new();
    let mut i: usize = 0;
    while i < blocks.len()
        invariant
            i <= blocks.len(),
            out.len() == i,
            forall|k: int| 0 <= k < i ==> (#[trigger] out@[k])@ == blocks@[k]@,
        decreases blocks.len() - i,
    {
        out.push(blocks[i].clone());
        i += 1;
    }
    assert(block_views(out@) =~= block_views(blocks@));
    out
}

/// The engine.
pub struct Renamer {
    /// The files, in the order in which they are numbered.
    pub files: Vec<FileEntry>,
    /// The position of the selected file, if one is selected.
    pub selected_idx: Option<usize>,
    /// The template that is being edited.
    pub blocks: Vec<Block>,
    pub collision: CollisionStrategy,
    /// Kept with the template; see [`Template`].
    pub use_mtime_for_date: bool,
    /// How many suffixes are tried for one file under `Suffix`.
    pub max_probes: u32,
    pub saved_templates: Vec<Template>,
    pub current_template_name: String,
    /// The committed batches that have not been undone.
    pub last_actions: UndoStack,
}

impl Renamer {
    /// The records of the committed batches that have not been undone, oldest
    /// first.
    pub open spec fn history(&self) -> Seq<Seq<RenamedView>> {
        self.last_actions@
    }

    /// Whether the list of files and the selection are those of `before`.
    pub open spec fn files_kept(self, before: Renamer) -> bool {
        &&& self.files == before.files
        &&& self.selected_idx == before.selected_idx
    }

    /// Whether the template that is being edited is that of `before`.
    pub open spec fn template_kept(self, before: Renamer) -> bool {
        &&& self.blocks == before.blocks
        &&& self.collision == before.collision
        &&& self.use_mtime_for_date == before.use_mtime_for_date
        &&& self.current_template_name == before.current_template_name
    }

    /// Whether the saved templates and the cap on suffixes are those of
    /// `before`.
    pub open spec fn store_kept(self, before: Renamer) -> bool {
        &&& self.saved_templates == before.saved_templates
        &&& self.max_probes == before.max_probes
    }

    /// How many batches can be undone.
    pub fn undo_depth(&self) -> (depth: usize)
        ensures
            depth == self.history().len(),
    {
        self.last_actions.len()
    }

    /// Adds the candidates at which a regular file is to the end of the list,
    /// in their order; the others are passed over.
    pub fn add_files(&mut self, candidates: &Vec<Candidate>)
        ensures
            file_paths(final(self).files@) == file_paths(old(self).files@) + regular_paths(
                candidates@,
            ),
            final(self).selected_idx == old(self).selected_idx,
            final(self).template_kept(*old(self)),
            final(self).store_kept(*old(self)),
            final(self).history() == old(self).history(),
    {
        let mut i: usize = 0;
        assert(candidates@.take(0) =~= Seq::empty());
        assert(file_paths(self.files@) =~= file_paths(old(self).files@) + regular_paths(
            candidates@.take(0),
        ));
        while i < candidates.len()
            invariant
                i <= candidates.len(),
                file_paths(self.files@) == file_paths(old(self).files@) + regular_paths(
                    candidates@.take(i as int),
                ),
                self.selected_idx == old(self).selected_idx,
                self.template_kept(*old(self)),
                self.store_kept(*old(self)),
                self.history() == old(self).history(),
            decreases candidates.len() - i,
        {
            let ghost before = file_paths(self.files@);
            assert(candidates@.take(i + 1).drop_last() =~= candidates@.take(i as int));
            assert(candidates@.take(i + 1).last() == candidates@[i as int]);
            if candidates[i].is_file {
                self.files.push(FileEntry { path: candidates[i].path.clone() });
                assert(file_paths(self.files@) =~= before.push(candidates@[i as int].path@));
            }
            i += 1;
            assert(file_paths(self.files@) =~= file_paths(old(self).files@) + regular_paths(
                candidates@.take(i as int),
            ));
        }
        assert(candidates@.take(candidates.len() as int) =~= candidates@);
    }

    /// Moves the selected file one place up, and the selection with it.
    /// Nothing changes if no file is selected or the selected one is the
    /// first.
    pub fn move_up(&mut self)
        ensures
            match old(self).selected_idx {
                Some(i) if 0 < i < old(self).files.len() => {
                    &&& final(self).files@ == exchanged(old(self).files@, i - 1, i as int)
                    &&& final(self).selected_idx == Some((i - 1) as usize)
                },
                _ => {
                    &&& final(self).files@ == old(self).files@
                    &&& final(self).selected_idx == old(self).selected_idx
                },
            },
            final(self).template_kept(*old(self)),
            final(self).store_kept(*old(self)),
            final(self).history() == old(self).history(),
    {
        match self.selected_idx {
            Some(i) => {
                if 0 < i && i < self.files.len() {
                    exchange_with_previous(&mut self.files, i);
                    self.selected_idx = Some(i - 1);
                }
            },
            None => {},
        }
    }

    /// Moves the selected file one place down, and the selection with it.
    /// Nothing changes if no file is selected or the selected one is the
    /// last.
    pub fn move_down(&mut self)
        ensures
            match old(self).selected_idx {
                Some(i) if i + 1 < old(self).files.len() => {
                    &&& final(self).files@ == exchanged(old(self).files@, i as int, i + 1)
                    &&& final(self).selected_idx == Some((i + 1) as usize)
                },
                _ => {
                    &&& final(self).files@ == old(self).files@
                    &&& final(self).selected_idx == old(self).selected_idx
                },
            },
            final(self).template_kept(*old(self)),
            final(self).store_kept(*old(self)),
            final(self).history() == old(self).history(),
    {
        match self.selected_idx {
            Some(i) => {
                if i < self.files.len() && i + 1 < self.files.len() {
                    exchange_with_previous(&mut self.files, i + 1);
                    self.selected_idx = Some(i + 1);
                }
            },
            None => {},
        }
    }

    /// Takes the selected file off the list and clears the selection.
    pub fn remove_selected(&mut self)
        ensures
            match old(self).selected_idx {
                Some(i) if i < old(self).files.len() => final(self).files@ == old(
                    self,
                ).files@.remove(i as int),
                _ => final(self).files@ == old(self).files@,
            },
            final(self).selected_idx is None,
            final(self).template_kept(*old(self)),
            final(self).store_kept(*old(self)),
            final(self).history() == old(self).history(),
    {
        match self.selected_idx {
            Some(i) => {
                if i < self.files.len() {
                    self.files.remove(i);
                }
            },
            None => {},
        }
        self.selected_idx = None;
    }

    /// Takes every file off the list and clears the selection.
    pub fn clear_files(&mut self)
        ensures
            final(self).files@.len() == 0,
            final(self).selected_idx is None,
            final(self).template_kept(*old(self)),
            final(self).store_kept(*old(self)),
            final(self).history() == old(self).history(),
    {
        self.files.clear();
        self.selected_idx = None;
    }

    /// The new name of every file under the template that is being edited, in
    /// the order of the list.
    pub fn generate_targets(&self, now: Timestamp) -> (out: Result<Vec<String>, TemplateError>)
        ensures
            match out {
                Ok(names) => {
                    &&& self.files.len() == 0 || dates_ok(block_views(self.blocks@), now)
                    &&& names.len() == self.files.len()
                    &&& texts(names@) == target_names(
                        file_paths(self.files@),
                        segments_of(block_views(self.blocks@), now),
                    )
                },
                Err(TemplateError::BadDatePattern { block }) => {
                    &&& self.files.len() > 0
                    &&& first_bad_date(block_views(self.blocks@), now, block as int)
                },
            },
    {
        generate_targets(&self.files, &self.blocks, now)
    }

    /// For every file its present file name and its new one.
    pub fn preview_table(&self, now: Timestamp) -> (out: Result<
        Vec<(String, String)>,
        TemplateError,
    >)
        ensures
            match out {
                Ok(rows) => {
                    &&& self.files.len() == 0 || dates_ok(block_views(self.blocks@), now)
                    &&& rows.len() == self.files.len()
                    &&& forall|i: int|
                        0 <= i < rows.len() ==> {
                            &&& (#[trigger] rows@[i]).0@ == file_name(self.files@[i]@)
                            &&& rows@[i].1@ == target_names(
                                file_paths(self.files@),
                                segments_of(block_views(self.blocks@), now),
                            )[i]
                        }
                },
                Err(TemplateError::BadDatePattern { block }) => {
                    &&& self.files.len() > 0
                    &&& first_bad_date(block_views(self.blocks@), now, block as int)
                },
            },
    {
        let names = match self.generate_targets(now) {
            Ok(names) => names,
            Err(e) => {
                return Err(e);
            },
        };
        let ghost wanted = target_names(
            file_paths(self.files@),
            segments_of(block_views(self.blocks@), now),
        );
        let mut rows: Vec<(String, String)> = Vec::new();
        let mut i: usize = 0;
        while i < self.files.len()
            invariant
                i <= self.files.len() == names.len(),
                texts(names@) == wanted,
                rows.len() == i,
                forall|k: int|
                    0 <= k < i ==> {
                        &&& (#[trigger] rows@[k]).0@ == file_name(self.files@[k]@)
                        &&& rows@[k].1@ == wanted[k]
                    },
            decreases self.files.len() - i,
        {
            assert(texts(names@)[i as int] == names@[i as int]@);
            rows.push((file_name_of(self.files[i].path.as_str()), names[i].clone()));
            i += 1;
        }
        Ok(rows)
    }

    /// Starts a rename pass: expands the template and sets up the planner
    /// for the files and their new names. `stamp` goes into the temporary
    /// names of the pass.
    pub fn execute_rename(&self, now: Timestamp, stamp: u128) -> (out: Result<
        Planner,
        TemplateError,
    >)
        ensures
            match out {
                Ok(planner) => {
                    &&& self.files.len() == 0 || dates_ok(block_views(self.blocks@), now)
                    &&& planner@ == PlannerView::start(
                        items_of(
                            file_paths(self.files@),
                            target_names(
                                file_paths(self.files@),
                                segments_of(block_views(self.blocks@), now),
                            ),
                        ),
                        self.collision,
                        self.max_probes as nat,
                        stamp as nat,
                    )
                    &&& planner@.wf()
                },
                Err(TemplateError::BadDatePattern { block }) => {
                    &&& self.files.len() > 0
                    &&& first_bad_date(block_views(self.blocks@), now, block as int)
                },
            },
    {
        let names = match self.generate_targets(now) {
            Ok(names) => names,
            Err(e) => {
                return Err(e);
            },
        };
        let ghost paths = file_paths(self.files@);
        let ghost wanted = target_names(paths, segments_of(block_views(self.blocks@), now));
        let mut items: Vec<PlanItem> = Vec::new();
        let mut i: usize = 0;
        while i < self.files.len()
            invariant
                i <= self.files.len() == names.len(),
                paths == file_paths(self.files@),
                texts(names@) == wanted,
                items.len() == i,
                forall|k: int|
                    0 <= k < i ==> (#[trigger] items@[k])@ == (ItemView {
                        origin: paths[k],
                        name: wanted[k],
                    }),
            decreases self.files.len() - i,
        {
            assert(texts(names@)[i as int] == names@[i as int]@);
            items.push(PlanItem { origin: self.files[i].path.clone(), name: names[i].clone() });
            i += 1;
        }
        assert(item_views(items@) =~= items_of(paths, wanted));
        Ok(Planner::new(items, self.collision, self.max_probes, stamp))
    }

    /// Ends a rename pass: if the run committed its batch, the record of the
    /// batch goes on top of the undo stack. In every other case, and while
    /// the run is not over, the stack stays as it is. Returns how the run
    /// ended.
    pub fn finish_rename(&mut self, run: Executor) -> (out: Option<Outcome>)
        ensures
            match out {
                Some(o) => run@.outcome() == Some(o@),
                None => run@.outcome() is None,
            },
            final(self).history() == if run@.outcome() == Some(OutcomeView::Committed) {
                old(self).history().push(undo_record(run@.batch))
            } else {
                old(self).history()
            },
            final(self).files_kept(*old(self)),
            final(self).template_kept(*old(self)),
            final(self).store_kept(*old(self)),
    {
        let out = run.outcome();
        match &out {
            Some(Outcome::Committed) => {
                let record = record_of(run.batch());
                self.last_actions.push(record);
            },
            _ => {},
        }
        out
    }

    /// Starts to undo the batch that was committed last and takes its record
    /// off the stack. `None` if there is nothing to undo.
    pub fn undo(&mut self) -> (out: Option<UndoRun>)
        ensures
            match out {
                Some(run) => {
                    &&& old(self).history().len() > 0
                    &&& run@ == UndoView::start(old(self).history().last())
                    &&& final(self).history() == old(self).history().drop_last()
                },
                None => {
                    &&& old(self).history().len() == 0
                    &&& final(self).history() == old(self).history()
                },
            },
            final(self).files_kept(*old(self)),
            final(self).template_kept(*old(self)),
            final(self).store_kept(*old(self)),
    {
        match self.last_actions.pop() {
            Some(record) => Some(UndoRun::new(record)),
            None => None,
        }
    }
}

impl Default for Renamer {
    /// An engine with no files, nothing to undo, and the template of a
    /// four-digit counter from 1, an underscore and the stem of the file, with
    /// collisions settled by suffix.
    fn default() -> (out: Renamer)
        ensures
            out.files@.len() == 0,
            out.selected_idx is None,
            block_views(out.blocks@) == seq![
                BlockView::Number { width: 4, start: 1, step: 1 },
                BlockView::Literal(seq!['_']),
                BlockView::Original,
            ],
            out.collision == CollisionStrategy::Suffix,
            out.use_mtime_for_date,
            out.max_probes == DEFAULT_MAX_PROBES,
            out.saved_templates@.len() == 0,
            out.current_template_name@.len() == 0,
            out.history().len() == 0,
    {
        let mut underscore = String::new();
        underscore.push('_');
        let mut blocks: Vec<Block> = Vec::new();
        blocks.push(Block::Number { width: 4, start: 1, step: 1 });
        blocks.push(Block::Literal(underscore));
        blocks.push(Block::Original);
        assert(block_views(blocks@) =~= seq![
            BlockView::Number { width: 4, start: 1, step: 1 },
            BlockView::Literal(seq!['_']),
            BlockView::Original,
        ]);
        Renamer {
            files: Vec::new(),
            selected_idx: None,
            blocks,
            collision: CollisionStrategy::Suffix,
            use_mtime_for_date: true,
            max_probes: DEFAULT_MAX_PROBES,
            saved_templates: Vec::new(),
            current_template_name: String::new(),
            last_actions: UndoStack::new(),
        }
    }
}

/// Whether `at` is the position of the first template with this name.
pub open spec fn first_named(templates: Seq<TemplateView>, name: Seq<char>, at: int) -> bool {
    &&& 0 <= at < templates.len()
    &&& templates[at].name == name
    &&& forall|j: int| 0 <= j < at ==> (#[trigger] templates[j]).name != name
}

/// Whether no template has this name.
pub open spec fn none_named(templates: Seq<TemplateView>, name: Seq<char>) -> bool {
    forall|j: int| 0 <= j < templates.len() ==> (#[trigger] templates[j]).name != name
}

/// The position of the first template with this name.
pub fn find_template(templates: &Vec<Template>, name: &str) -> (out: Option<usize>)
    ensures
        match out {
            Some(at) => first_named(template_views(templates@), name@, at as int),
            None => none_named(template_views(templates@), name@),
        },
{
    let mut i: usize = 0;
    while i < templates.len()
        invariant
            i <= templates.len(),
            forall|j: int| 0 <= j < i ==> (#[trigger] template_views(templates@)[j]).name != name@,
        decreases templates.len() - i,
    {
        assert(template_views(templates@)[i as int] == templates@[i as int]@);
        if same_text(templates[i].name.as_str(), name) {
            return Some(i);
        }
        i += 1;
    }
    None
}

impl Renamer {
    /// Whether all of the template but its blocks, the saved templates and
    /// the cap on suffixes are those of `before`.
    pub open spec fn settings_kept(self, before: Renamer) -> bool {
        &&& self.collision == before.collision
        &&& self.use_mtime_for_date == before.use_mtime_for_date
        &&& self.current_template_name == before.current_template_name
        &&& self.store_kept(before)
    }

    /// The template that is being edited, under the current name.
    pub open spec fn current_template(&self) -> TemplateView {
        TemplateView {
            name: self.current_template_name@,
            blocks: block_views(self.blocks@),
            collision: self.collision,
            use_mtime_for_date: self.use_mtime_for_date,
        }
    }

    /// Exchanges the block at `idx` with the one before it. Nothing changes
    /// if there is none before it.
    pub fn move_block_up(&mut self, idx: usize)
        ensures
            final(self).blocks@ == if 0 < idx < old(self).blocks.len() {
                exchanged(old(self).blocks@, idx - 1, idx as int)
            } else {
                old(self).blocks@
            },
            final(self).files_kept(*old(self)),
            final(self).settings_kept(*old(self)),
            final(self).history() == old(self).history(),
    {
        if 0 < idx && idx < self.blocks.len() {
            exchange_with_previous(&mut self.blocks, idx);
        }
    }

    /// Exchanges the block at `idx` with the one behind it. Nothing changes
    /// if there is none behind it.
    pub fn move_block_down(&mut self, idx: usize)
        ensures
            final(self).blocks@ == if idx + 1 < old(self).blocks.len() {
                exchanged(old(self).blocks@, idx as int, idx + 1)
            } else {
                old(self).blocks@
            },
            final(self).files_kept(*old(self)),
            final(self).settings_kept(*old(self)),
            final(self).history() == old(self).history(),
    {
        if idx < self.blocks.len() && idx + 1 < self.blocks.len() {
            exchange_with_previous(&mut self.blocks, idx + 1);
        }
    }

    /// Takes the block at `idx` out of the template. Nothing changes if there
    /// is no such block.
    pub fn remove_block(&mut self, idx: usize)
        ensures
            final(self).blocks@ == if idx < old(self).blocks.len() {
                old(self).blocks@.remove(idx as int)
            } else {
                old(self).blocks@
            },
            final(self).files_kept(*old(self)),
            final(self).settings_kept(*old(self)),
            final(self).history() == old(self).history(),
    {
        if idx < self.blocks.len() {
            self.blocks.remove(idx);
        }
    }

    /// Puts `block` in the place of the block at `idx`. Nothing changes if
    /// there is no such block.
    pub fn replace_block(&mut self, idx: usize, block: Block)
        ensures
            final(self).blocks@ == if idx < old(self).blocks.len() {
                old(self).blocks@.update(idx as int, block)
            } else {
                old(self).blocks@
            },
            final(self).files_kept(*old(self)),
            final(self).settings_kept(*old(self)),
            final(self).history() == old(self).history(),
    {
        if idx < self.blocks.len() {
            self.blocks.remove(idx);
            self.blocks.insert(idx, block);
            assert(self.blocks@ =~= old(self).blocks@.update(idx as int, block));
        }
    }

    /// Puts `block` at the end of the template.
    pub fn add_block(&mut self, block: Block)
        ensures
            final(self).blocks@ == old(self).blocks@.push(block),
            final(self).files_kept(*old(self)),
            final(self).settings_kept(*old(self)),
            final(self).history() == old(self).history(),
    {
        self.blocks.push(block);
    }

    /// Saves the template that is being edited under the current name: in
    /// the place of the first saved template of that name, or behind the
    /// others if there is none. With an empty name nothing is saved. Returns
    /// whether the template was saved.
    pub fn save_template(&mut self) -> (saved: bool)
        ensures
            saved == (old(self).current_template_name@.len() > 0),
            ({
                let before = template_views(old(self).saved_templates@);
                let after = template_views(final(self).saved_templates@);
                let name = old(self).current_template_name@;
                if !saved {
                    after == before
                } else if none_named(before, name) {
                    after == before.push(old(self).current_template())
                } else {
                    exists|at: int|
                        first_named(before, name, at) && after == before.update(
                            at,
                            old(self).current_template(),
                        )
                }
            }),
            final(self).template_kept(*old(self)),
            final(self).max_probes == old(self).max_probes,
            final(self).files_kept(*old(self)),
            final(self).history() == old(self).history(),
    {
        if self.current_template_name.as_str().is_empty() {
            return false;
        }
        let template = Template {
            name: self.current_template_name.clone(),
            blocks: clone_blocks(&self.blocks),
            collision: self.collision,
            use_mtime_for_date: self.use_mtime_for_date,
        };
        let ghost before = template_views(self.saved_templates@);
        match find_template(&self.saved_templates, self.current_template_name.as_str()) {
            Some(at) => {
                self.saved_templates.remove(at);
                self.saved_templates.insert(at, template);
                assert(template_views(self.saved_templates@) =~= before.update(
                    at as int,
                    old(self).current_template(),
                ));
                assert(first_named(before, old(self).current_template_name@, at as int));
            },
            None => {
                self.saved_templates.push(template);
                assert(template_views(self.saved_templates@) =~= before.push(
                    old(self).current_template(),
                ));
            },
        }
        true
    }

    /// Makes the first saved template of the current name the template that
    /// is being edited. Nothing changes if there is none of that name.
    /// Returns whether there was one.
    pub fn apply_template(&mut self) -> (applied: bool)
        ensures
            ({
                let saved = template_views(old(self).saved_templates@);
                let name = old(self).current_template_name@;
                if applied {
                    exists|at: int|
                        first_named(saved, name, at) && final(self).current_template()
                            == saved[at]
                } else {
                    &&& none_named(saved, name)
                    &&& final(self).current_template() == old(self).current_template()
                }
            }),
            final(self).current_template_name == old(self).current_template_name,
            final(self).store_kept(*old(self)),
            final(self).files_kept(*old(self)),
            final(self).history() == old(self).history(),
    {
        match find_template(&self.saved_templates, self.current_template_name.as_str()) {
            Some(at) => {
                let ghost saved = template_views(self.saved_templates@);
                assert(saved[at as int] == self.saved_templates@[at as int]@);
                let blocks = clone_blocks(&self.saved_templates[at].blocks);
                let collision = self.saved_templates[at].collision;
                let use_mtime_for_date = self.saved_templates[at].use_mtime_for_date;
                self.blocks = blocks;
                self.collision = collision;
                self.use_mtime_for_date = use_mtime_for_date;
                assert(first_named(saved, old(self).current_template_name@, at as int));
                true
            },
            None => false,
        }
    }
}

} // verus!
