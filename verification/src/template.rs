//! Naming templates: an ordered run of blocks that is expanded, file by file,
//! into the new file names.

use vstd::prelude::*;
use crate::decimal::{decimal, number_text, push_decimal, shortfall, zeros};
use crate::path::{dotted_extension, extension_of_path, file_stem, file_stem_of};
use crate::text::{push_text, texts};

verus! {

/// One unit of a template.
#[derive(Debug, PartialEq, Eq)]
pub enum Block {
    /// The text as it stands.
    Literal(String),
    /// A counter: `start` for the first file, `step` more for each further
    /// one, filled with zeros to `width` characters.
    Number { width: usize, start: i64, step: i64 },
    /// The time of the pass, written after a `strftime` pattern.
    Date { format: String },
    /// The stem of the file's present name.
    Original,
}

pub enum BlockView {
    Literal(Seq<char>),
    Number { width: nat, start: int, step: int },
    Date { format: Seq<char> },
    Original,
}

impl View for Block {
    type V = BlockView;

    open spec fn view(&self) -> BlockView {
        match self {
            Block::Literal(text) => BlockView::Literal(text@),
            Block::Number { width, start, step } => BlockView::Number {
                width: *width as nat,
                start: *start as int,
                step: *step as int,
            },
            Block::Date { format } => BlockView::Date { format: format@ },
            Block::Original => BlockView::Original,
        }
    }
}

impl Clone for Block {
    fn clone(&self) -> (out: Block)
        ensures
            out@ == self@,
    {
        match self {
            Block::Literal(text) => Block::Literal(text.clone()),
            Block::Number { width, start, step } => Block::Number {
                width: *width,
                start: *start,
                step: *step,
            },
            Block::Date { format } => Block::Date { format: format.clone() },
            Block::Original => Block::Original,
        }
    }
}

/// The views of a run of blocks.
pub open spec fn block_views(blocks: Seq<Block>) -> Seq<BlockView> {
    blocks.map_values(|b: Block| b@)
}

/// What to do when the wanted name is taken.
#[derive(Clone, Copy, PartialEq, Eq, Structural, Debug)]
pub enum CollisionStrategy {
    /// Take the name all the same.
    Overwrite,
    /// Leave the file as it is.
    Skip,
    /// Put ` (1)`, ` (2)`, … behind the stem until the name is free.
    Suffix,
}

/// A named template. `use_mtime_for_date` is carried with the template but
/// has no effect: a `Date` block always writes the time that the pass was
/// given, never a file's modification time.
#[derive(Debug, PartialEq, Eq)]
pub struct Template {
    pub name: String,
    pub blocks: Vec<Block>,
    pub collision: CollisionStrategy,
    pub use_mtime_for_date: bool,
}

/// The template as a mathematical value.
pub struct TemplateView {
    pub name: Seq<char>,
    pub blocks: Seq<BlockView>,
    pub collision: CollisionStrategy,
    pub use_mtime_for_date: bool,
}

impl View for Template {
    type V = TemplateView;

    open spec fn view(&self) -> TemplateView {
        TemplateView {
            name: self.name@,
            blocks: block_views(self.blocks@),
            collision: self.collision,
            use_mtime_for_date: self.use_mtime_for_date,
        }
    }
}

/// The views of a run of templates.
pub open spec fn template_views(templates: Seq<Template>) -> Seq<TemplateView> {
    templates.map_values(|t: Template| t@)
}

/// A file of the list: its path.
#[derive(Debug, PartialEq, Eq)]
pub struct FileEntry {
    pub path: String,
}

impl View for FileEntry {
    type V = Seq<char>;

    open spec fn view(&self) -> Seq<char> {
        self.path@
    }
}

impl Clone for FileEntry {
    fn clone(&self) -> (out: FileEntry)
        ensures
            out@ == self@,
    {
        FileEntry { path: self.path.clone() }
    }
}

/// The paths of a run of files.
pub open spec fn file_paths(files: Seq<FileEntry>) -> Seq<Seq<char>> {
    files.map_values(|f: FileEntry| f@)
}

/// A point in time with the offset of the local time from UTC at that point.
#[derive(Clone, Copy, PartialEq, Eq, Structural, Debug)]
pub struct Timestamp {
    /// Seconds since 1970-01-01 00:00:00 UTC, leap seconds not counted.
    pub seconds: i64,
    /// Nanoseconds since the last full second.
    pub nanos: u32,
    /// Local time minus UTC, in seconds.
    pub offset_seconds: i32,
}

/// What chrono writes for the local time `offset` seconds east of UTC at
/// `seconds` and `nanos` past the epoch under the `strftime` pattern
/// `pattern`, or `None` where it writes nothing: the time or the offset is out
/// of chrono's range, or the pattern cannot be written for that time.
pub uninterp spec fn strftime_text(seconds: int, nanos: int, offset: int, pattern: Seq<char>) -> Option<Seq<char>>;

/// What a `Date` block with this pattern writes at `now`.
pub open spec fn date_text(now: Timestamp, pattern: Seq<char>) -> Option<Seq<char>> {
    strftime_text(now.seconds as int, now.nanos as int, now.offset_seconds as int, pattern)
}

/// Calls `chrono::DateTime::format` on the time `now` in the zone that is
/// `now.offset_seconds` east of UTC, and writes the result out with
/// `DelayedFormat::write_to`. Nothing is proved of the text: it is what
/// `strftime_text` names. `None` stands for chrono's refusals: of the offset
/// (`FixedOffset::east_opt`), of the time (`DateTime::from_timestamp`) and of
/// the pattern (`write_to`).
#[verifier::external_body]
fn format_timestamp(now: Timestamp, pattern: &str) -> (out: Option<String>)
    ensures
        match out {
            Some(text) => strftime_text(
                now.seconds as int,
                now.nanos as int,
                now.offset_seconds as int,
                pattern@,
            ) == Some(text@),
            None => strftime_text(
                now.seconds as int,
                now.nanos as int,
                now.offset_seconds as int,
                pattern@,
            ) is None,
        },
{
    let zone = chrono::FixedOffset::east_opt(now.offset_seconds)?;
    let utc = chrono::DateTime::from_timestamp(now.seconds, now.nanos)?;
    let mut text = String::new();
    match utc.with_timezone(&zone).format(pattern).write_to(&mut text) {
        Ok(()) => Some(text),
        Err(_) => None,
    }
}

/// A block whose text no longer depends on the time.
#[derive(Debug, PartialEq, Eq)]
pub enum Segment {
    Text(String),
    Counter { width: usize, start: i64, step: i64 },
    Stem,
}

pub enum SegmentView {
    Text(Seq<char>),
    Counter { width: nat, start: int, step: int },
    Stem,
}

impl View for Segment {
    type V = SegmentView;

    open spec fn view(&self) -> SegmentView {
        match self {
            Segment::Text(text) => SegmentView::Text(text@),
            Segment::Counter { width, start, step } => SegmentView::Counter {
                width: *width as nat,
                start: *start as int,
                step: *step as int,
            },
            Segment::Stem => SegmentView::Stem,
        }
    }
}

/// The views of a run of segments.
pub open spec fn segment_views(segments: Seq<Segment>) -> Seq<SegmentView> {
    segments.map_values(|s: Segment| s@)
}

/// The segment that a block becomes at `now`; `None` for a `Date` block whose
/// pattern cannot be written.
pub open spec fn segment_of(block: BlockView, now: Timestamp) -> Option<SegmentView> {
    match block {
        BlockView::Literal(text) => Some(SegmentView::Text(text)),
        BlockView::Number { width, start, step } => Some(SegmentView::Counter { width, start, step }),
        BlockView::Date { format } => match date_text(now, format) {
            Some(text) => Some(SegmentView::Text(text)),
            None => None,
        },
        BlockView::Original => Some(SegmentView::Stem),
    }
}

/// Whether every `Date` block can be written at `now`.
pub open spec fn dates_ok(blocks: Seq<BlockView>, now: Timestamp) -> bool {
    forall|i: int| 0 <= i < blocks.len() ==> (#[trigger] segment_of(blocks[i], now)) is Some
}

/// The segments that the blocks become at `now`.
pub open spec fn segments_of(blocks: Seq<BlockView>, now: Timestamp) -> Seq<SegmentView> {
    Seq::new(blocks.len(), |i: int| segment_of(blocks[i], now).unwrap())
}

/// The text of one segment for the file at position `index` with stem `stem`.
pub open spec fn segment_text(segment: SegmentView, index: nat, stem: Seq<char>) -> Seq<char> {
    match segment {
        SegmentView::Text(text) => text,
        SegmentView::Counter { width, start, step } => number_text(start + index * step, width),
        SegmentView::Stem => stem,
    }
}

/// The texts of the segments, one behind the other.
pub open spec fn segments_text(segments: Seq<SegmentView>, index: nat, stem: Seq<char>) -> Seq<char>
    decreases segments.len(),
{
    if segments.len() == 0 {
        Seq::empty()
    } else {
        segments_text(segments.drop_last(), index, stem) + segment_text(
            segments.last(),
            index,
            stem,
        )
    }
}

/// The new name of the file `path` at position `index`: the texts of the
/// segments, then the file's extension behind a `.` if it has one.
pub open spec fn target_name(segments: Seq<SegmentView>, index: nat, path: Seq<char>) -> Seq<char> {
    segments_text(segments, index, file_stem(path)) + dotted_extension(path)
}

/// Why a template could not be expanded.
#[derive(Clone, Copy, PartialEq, Eq, Structural, Debug)]
pub enum TemplateError {
    /// The `Date` block at this position has a pattern that cannot be
    /// written.
    BadDatePattern { block: usize },
}

/// The counter's value for the file at position `idx`, `start + idx * step`,
/// as a decimal numeral filled with zeros to `width` characters.
pub fn format_number(idx: usize, width: usize, start: i64, step: i64) -> (out: String)
    ensures
        out@ == number_text(start + idx * step, width as nat),
{
    assert(-170141183460469231722463931679029329920 <= idx * step
        <= 170141183460469231704017187605319778305) by (nonlinear_arith)
        requires
            0 <= idx <= 18446744073709551615,
            -9223372036854775808 <= step <= 9223372036854775807,
    ;
    let value: i128 = (start as i128) + (idx as i128) * (step as i128);
    let negative = value < 0;
    let size: u128 = if !negative {
        value as u128
    } else if value == i128::MIN {
        170141183460469231731687303715884105728u128
    } else {
        (-value) as u128
    };
    let taken: usize = if negative {
        1
    } else {
        0
    };
    let short = shortfall(size, taken, width);
    let mut out = String::new();
    if negative {
        out.push('-');
    }
    let ghost sign = out@;
    let mut filled: usize = 0;
    while filled < short
        invariant
            filled <= short,
            out@ == sign + zeros(filled as nat),
        decreases short - filled,
    {
        out.push('0');
        filled += 1;
        assert(out@ =~= sign + zeros(filled as nat));
    }
    push_decimal(&mut out, size);
    proof {
        let v = start + idx * step;
        assert(size == if v < 0 { -v } else { v });
        assert(out@ =~= number_text(v, width as nat));
    }
    out
}

/// Whether `block` is the first block that cannot be written at `now`.
pub open spec fn first_bad_date(blocks: Seq<BlockView>, now: Timestamp, block: int) -> bool {
    &&& 0 <= block < blocks.len()
    &&& segment_of(blocks[block], now) is None
    &&& forall|j: int| 0 <= j < block ==> (#[trigger] segment_of(blocks[j], now)) is Some
}

/// Writes out the `Date` blocks for the time `now`, so that what is left
/// depends on the file alone. Fails at the first `Date` block whose pattern
/// cannot be written.
pub fn resolve_dates(blocks: &Vec<Block>, now: Timestamp) -> (out: Result<
    Vec<Segment>,
    TemplateError,
>)
    ensures
        match out {
            Ok(segments) => {
                &&& dates_ok(block_views(blocks@), now)
                &&& segment_views(segments@) == segments_of(block_views(blocks@), now)
            },
            Err(TemplateError::BadDatePattern { block }) => first_bad_date(
                block_views(blocks@),
                now,
                block as int,
            ),
        },
{
    let ghost views = block_views(blocks@);
    let mut segments: Vec<Segment> = Vec::new();
    let mut i: usize = 0;
    while i < blocks.len()
        invariant
            i <= blocks.len(),
            views == block_views(blocks@),
            segments.len() == i,
            forall|j: int| 0 <= j < i ==> (#[trigger] segment_of(views[j], now)) is Some,
            forall|j: int|
                0 <= j < i ==> (#[trigger] segments@[j])@ == segment_of(views[j], now).unwrap(),
        decreases blocks.len() - i,
    {
        assert(views[i as int] == blocks@[i as int]@);
        let segment = match &blocks[i] {
            Block::Literal(text) => Segment::Text(text.clone()),
            Block::Number { width, start, step } => Segment::Counter {
                width: *width,
                start: *start,
                step: *step,
            },
            Block::Date { format } => match format_timestamp(now, format.as_str()) {
                Some(text) => Segment::Text(text),
                None => {
                    return Err(TemplateError::BadDatePattern { block: i });
                },
            },
            Block::Original => Segment::Stem,
        };
        segments.push(segment);
        i += 1;
    }
    assert(segment_views(segments@) =~= segments_of(views, now));
    Ok(segments)
}

/// The new name of the file `path` at position `index` of the list: the
/// texts of the segments in their order, then the extension that the file
/// has now.
pub fn expand_segments(segments: &Vec<Segment>, index: usize, path: &str) -> (out: String)
    ensures
        out@ == target_name(segment_views(segments@), index as nat, path@),
{
    let ghost views = segment_views(segments@);
    let ghost stem_text = file_stem(path@);
    let stem = file_stem_of(path);
    let mut out = String::new();
    let mut i: usize = 0;
    while i < segments.len()
        invariant
            i <= segments.len(),
            views == segment_views(segments@),
            stem@ == stem_text,
            out@ == segments_text(views.take(i as int), index as nat, stem_text),
        decreases segments.len() - i,
    {
        assert(views.take(i + 1).drop_last() =~= views.take(i as int));
        assert(views.take(i + 1).last() == segments@[i as int]@);
        match &segments[i] {
            Segment::Text(text) => {
                push_text(&mut out, text.as_str());
            },
            Segment::Counter { width, start, step } => {
                let number = format_number(index, *width, *start, *step);
                push_text(&mut out, number.as_str());
            },
            Segment::Stem => {
                push_text(&mut out, stem.as_str());
            },
        }
        i += 1;
    }
    assert(views.take(segments.len() as int) =~= views);
    match extension_of_path(path) {
        Some(e) => {
            out.push('.');
            push_text(&mut out, e.as_str());
            assert(out@ =~= target_name(views, index as nat, path@));
        },
        None => {
            assert(out@ =~= target_name(views, index as nat, path@));
        },
    }
    out
}

/// The new names of all files, in the order of the list.
pub open spec fn target_names(paths: Seq<Seq<char>>, segments: Seq<SegmentView>) -> Seq<
    Seq<char>,
> {
    Seq::new(paths.len(), |i: int| target_name(segments, i as nat, paths[i]))
}

/// The new name of every file of the list under the template `blocks`, in the
/// order of the list. `Date` blocks write `now`, the same text for every
/// file. With no file there is nothing to expand and the result is empty; with
/// at least one, a `Date` block that cannot be written is an error.
pub fn generate_targets(files: &Vec<FileEntry>, blocks: &Vec<Block>, now: Timestamp) -> (out:
    Result<Vec<String>, TemplateError>)
    ensures
        match out {
            Ok(names) => {
                &&& files.len() == 0 || dates_ok(block_views(blocks@), now)
                &&& names.len() == files.len()
                &&& texts(names@) == target_names(
                    file_paths(files@),
                    segments_of(block_views(blocks@), now),
                )
            },
            Err(TemplateError::BadDatePattern { block }) => {
                &&& files.len() > 0
                &&& first_bad_date(block_views(blocks@), now, block as int)
            },
        },
{
    let mut names: Vec<String> = Vec::new();
    if files.len() == 0 {
        assert(texts(names@) =~= target_names(
            file_paths(files@),
            segments_of(block_views(blocks@), now),
        ));
        return Ok(names);
    }
    let segments = match resolve_dates(blocks, now) {
        Ok(segments) => segments,
        Err(e) => {
            return Err(e);
        },
    };
    let ghost views = segment_views(segments@);
    let ghost paths = file_paths(files@);
    let mut i: usize = 0;
    while i < files.len()
        invariant
            i <= files.len(),
            views == segment_views(segments@),
            paths == file_paths(files@),
            names.len() == i,
            forall|j: int|
                0 <= j < i ==> (#[trigger] names@[j])@ == target_name(views, j as nat, paths[j]),
        decreases files.len() - i,
    {
        let name = expand_segments(&segments, i, files[i].path.as_str());
        names.push(name);
        i += 1;
    }
    assert(texts(names@) =~= target_names(paths, views));
    Ok(names)
}

} // verus!
