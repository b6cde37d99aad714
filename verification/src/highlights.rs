//! Syntax highlighting of diffs: which source line a diff line takes its colors from, and which
//! source text is highlighted.
//!
//! The highlighter itself is a service: [`excerpt_side`] and [`full_sources`] say what to highlight,
//! and the functions that take documents say what becomes of the outcome.

use vstd::prelude::*;

use crate::patch::{
    hunk_models, line_models, DiffLine, FileDiff, FileModel, FileStatus, HunkModel, LineKind,
    LineModel,
};
use crate::text::{
    chars_of, join, joined, opt_text, rows, spells, split_lines, string_of, text_lines,
};

verus! {

#[derive(Debug, Clone, Copy, PartialEq, Eq, Structural)]
pub enum SourceSide {
    Old,
    New,
}

#[derive(Debug, Clone, Copy, PartialEq, Eq, Structural)]
pub struct SourceLineRef {
    pub side: SourceSide,
    /// One-based source line number.
    pub line_number: u32,
}

#[derive(Debug, Clone, Copy, PartialEq, Eq, Structural)]
pub enum HighlightKind {
    Keyword,
    Constructor,
    Comment,
    Type,
    TypeBuiltin,
    Property,
    Function,
    Parameter,
    Macro,
    Text,
    Number,
}

/// A run of bytes of one kind within a line.
#[derive(Debug, Clone, Copy, PartialEq, Eq, Structural)]
pub struct HighlightSpan {
    pub start: usize,
    pub end: usize,
    pub kind: HighlightKind,
}

/// The spans of each line of a source.
#[derive(Debug, PartialEq, Eq)]
pub struct HighlightedDocument {
    pub lines: Vec<Vec<HighlightSpan>>,
}

/// The highlighted sources of both sides, where there are any.
#[derive(Debug, PartialEq, Eq)]
pub struct DiffHighlights {
    pub old: Option<HighlightedDocument>,
    pub new: Option<HighlightedDocument>,
}

/// The source line that a diff line takes its colors from: a deleted line from the old source, an
/// added one from the new, a context line from the new source where that is highlighted.
pub open spec fn source_of(has_new: bool, line: LineModel) -> Option<SourceLineRef> {
    match line.kind {
        LineKind::Del => old_ref(line.old_no),
        LineKind::Add => new_ref(line.new_no),
        LineKind::Context => if has_new && line.new_no is Some {
            new_ref(line.new_no)
        } else {
            old_ref(line.old_no)
        },
        LineKind::Meta => None,
    }
}

pub open spec fn old_ref(no: Option<u32>) -> Option<SourceLineRef> {
    match no {
        Some(line_number) => Some(SourceLineRef { side: SourceSide::Old, line_number }),
        None => None,
    }
}

pub open spec fn new_ref(no: Option<u32>) -> Option<SourceLineRef> {
    match no {
        Some(line_number) => Some(SourceLineRef { side: SourceSide::New, line_number }),
        None => None,
    }
}

fn ref_to(side: SourceSide, no: Option<u32>) -> (r: Option<SourceLineRef>)
    ensures
        r == match side {
            SourceSide::Old => old_ref(no),
            SourceSide::New => new_ref(no),
        },
{
    match no {
        Some(line_number) => Some(SourceLineRef { side, line_number }),
        None => None,
    }
}

/// The spans of a one-based line of a document.
pub open spec fn spans_at(document: Option<HighlightedDocument>, number: u32) -> Seq<HighlightSpan> {
    match document {
        Some(d) => if 1 <= number <= d.lines@.len() {
            d.lines@[number - 1]@
        } else {
            Seq::empty()
        },
        None => Seq::empty(),
    }
}

impl DiffHighlights {
    pub fn source_ref(&self, line: &DiffLine) -> (r: Option<SourceLineRef>)
        ensures
            r == source_of(self.new is Some, line@),
    {
        match line.kind {
            LineKind::Del => ref_to(SourceSide::Old, line.old_no),
            LineKind::Add => ref_to(SourceSide::New, line.new_no),
            LineKind::Context => if self.new.is_some() && line.new_no.is_some() {
                ref_to(SourceSide::New, line.new_no)
            } else {
                ref_to(SourceSide::Old, line.old_no)
            },
            LineKind::Meta => None,
        }
    }

    /// The spans of a diff line; none where its source is not highlighted or has no such line.
    pub fn spans(&self, line: &DiffLine) -> (r: Vec<HighlightSpan>)
        ensures
            r@ == match source_of(self.new is Some, line@) {
                Some(at) => match at.side {
                    SourceSide::Old => spans_at(self.old, at.line_number),
                    SourceSide::New => spans_at(self.new, at.line_number),
                },
                None => Seq::empty(),
            },
    {
        let at = match self.source_ref(line) {
            Some(at) => at,
            None => {
                return Vec::new();
            },
        };
        let document = match at.side {
            SourceSide::Old => &self.old,
            SourceSide::New => &self.new,
        };
        match document {
            Some(document) => {
                let number = at.line_number as usize;
                if 1 <= number && number <= document.lines.len() {
                    vstd::slice::slice_to_vec(document.lines[number - 1].as_slice())
                } else {
                    Vec::new()
                }
            },
            None => Vec::new(),
        }
    }
}

// ---------------------------------------------------------------------------
// Excerpts
// ---------------------------------------------------------------------------

pub const MAX_EXCERPT_SOURCE_LINES: usize = 200_000;

/// The number of a line on one side.
pub open spec fn number_on(line: LineModel, side: SourceSide) -> Option<u32> {
    match side {
        SourceSide::Old => line.old_no,
        SourceSide::New => line.new_no,
    }
}

fn number(line: &DiffLine, side: SourceSide) -> (r: Option<u32>)
    ensures
        r == number_on(line@, side),
{
    match side {
        SourceSide::Old => line.old_no,
        SourceSide::New => line.new_no,
    }
}

/// The largest number on one side among the lines, or `floor`.
pub open spec fn largest_on(lines: Seq<LineModel>, side: SourceSide, floor: u32) -> u32
    decreases lines.len(),
{
    if lines.len() == 0 {
        floor
    } else {
        let before = largest_on(lines.drop_last(), side, floor);
        match number_on(lines.last(), side) {
            Some(n) if n > before => n,
            _ => before,
        }
    }
}

/// The largest number on one side in the hunks, or 0.
pub open spec fn largest_in(hunks: Seq<HunkModel>, side: SourceSide) -> u32
    decreases hunks.len(),
{
    if hunks.len() == 0 {
        0
    } else {
        largest_on(hunks.last().lines, side, largest_in(hunks.drop_last(), side))
    }
}

/// The lines that one side of a hunk shows, in order: those with a number there, meta lines apart.
pub open spec fn visible_lines(lines: Seq<LineModel>, side: SourceSide) -> Seq<(u32, Seq<char>)>
    decreases lines.len(),
{
    if lines.len() == 0 {
        Seq::empty()
    } else {
        let before = visible_lines(lines.drop_last(), side);
        let l = lines.last();
        match number_on(l, side) {
            Some(n) if l.kind != LineKind::Meta => before.push((n, l.text)),
            _ => before,
        }
    }
}

/// One side of a hunk, as a text to highlight: the line numbers, and the lines joined.
#[derive(Debug, PartialEq, Eq)]
pub struct ExcerptHunk {
    pub numbers: Vec<u32>,
    pub source: String,
}

/// One side of a file's hunks.
#[derive(Debug, PartialEq, Eq)]
pub struct Excerpt {
    /// The largest line number on the side.
    pub max_line: usize,
    pub hunks: Vec<ExcerptHunk>,
}

pub open spec fn numbers_of(lines: Seq<(u32, Seq<char>)>) -> Seq<u32> {
    lines.map_values(|l: (u32, Seq<char>)| l.0)
}

pub open spec fn texts_of(lines: Seq<(u32, Seq<char>)>) -> Seq<Seq<char>> {
    lines.map_values(|l: (u32, Seq<char>)| l.1)
}

/// Whether `h` is the excerpt of these lines.
pub open spec fn excerpts(h: ExcerptHunk, lines: Seq<(u32, Seq<char>)>) -> bool {
    &&& h.numbers@ == numbers_of(lines)
    &&& h.source@ == join(texts_of(lines), seq!['\n'])
}

/// The hunks that show something on the side.
pub open spec fn shown_hunks(hunks: Seq<HunkModel>, side: SourceSide) -> Seq<Seq<(u32, Seq<char>)>>
    decreases hunks.len(),
{
    if hunks.len() == 0 {
        Seq::empty()
    } else {
        let before = shown_hunks(hunks.drop_last(), side);
        let own = visible_lines(hunks.last().lines, side);
        if own.len() > 0 {
            before.push(own)
        } else {
            before
        }
    }
}

fn largest_line_on(file: &FileDiff, side: SourceSide) -> (r: u32)
    ensures
        r == largest_in(file@.hunks, side),
{
    let ghost hunks = file@.hunks;
    let mut largest: u32 = 0;
    for i in 0..file.hunks.len()
        invariant
            hunks == hunk_models(file.hunks@),
            largest == largest_in(hunks.take(i as int), side),
    {
        let ghost floor = largest;
        let ghost lines = file.hunks@[i as int]@.lines;
        let count: usize = file.hunks[i].lines.len();
        for j in 0..count
            invariant
                i < file.hunks@.len(),
                count == file.hunks@[i as int].lines@.len(),
                lines == line_models(file.hunks@[i as int].lines@),
                largest == largest_on(lines.take(j as int), side, floor),
        {
            assert(lines.take(j + 1).drop_last() =~= lines.take(j as int));
            assert(lines.take(j + 1).last() == file.hunks@[i as int].lines@[j as int]@);
            if let Some(n) = number(&file.hunks[i].lines[j], side) {
                if n > largest {
                    largest = n;
                }
            }
        }
        proof {
            assert(lines.take(lines.len() as int) =~= lines);
            assert(hunks.take(i + 1).drop_last() =~= hunks.take(i as int));
            assert(hunks.take(i + 1).last() == file.hunks@[i as int]@);
        }
    }
    assert(hunks.take(file.hunks@.len() as int) =~= hunks);
    largest
}

fn excerpt_hunk(lines: &Vec<DiffLine>, side: SourceSide) -> (r: ExcerptHunk)
    ensures
        excerpts(r, visible_lines(line_models(lines@), side)),
{
    proof {
        reveal_strlit("\n");
        assert("\n"@ =~= seq!['\n']);
    }
    let ghost models = line_models(lines@);
    let mut numbers: Vec<u32> = Vec::new();
    let mut parts: Vec<Vec<char>> = Vec::new();
    assert(numbers@ =~= numbers_of(visible_lines(models.take(0), side)));
    assert(rows(parts@) =~= texts_of(visible_lines(models.take(0), side)));
    for i in 0..lines.len()
        invariant
            models == line_models(lines@),
            numbers@ == numbers_of(visible_lines(models.take(i as int), side)),
            rows(parts@) == texts_of(visible_lines(models.take(i as int), side)),
    {
        proof {
            assert(models.take(i + 1).drop_last() =~= models.take(i as int));
            assert(models.take(i + 1).last() == lines@[i as int]@);
        }
        let ghost before = visible_lines(models.take(i as int), side);
        if let Some(n) = number(&lines[i], side) {
            if lines[i].kind != LineKind::Meta {
                let part = chars_of(lines[i].text.as_str());
                let ghost old_parts = parts@;
                numbers.push(n);
                parts.push(part);
                proof {
                    crate::text::lemma_rows_push(old_parts, part);
                    let after = before.push((n, part@));
                    assert(numbers_of(after) =~= numbers_of(before).push(n));
                    assert(texts_of(after) =~= texts_of(before).push(part@));
                }
            }
        }
    }
    assert(models.take(lines@.len() as int) =~= models);
    ExcerptHunk { numbers, source: string_of(joined(&parts, "\n").as_slice()) }
}

/// Whether the excerpts are those of the hunks that show something.
pub open spec fn all_excerpts(hs: Seq<ExcerptHunk>, shown: Seq<Seq<(u32, Seq<char>)>>) -> bool {
    &&& hs.len() == shown.len()
    &&& forall|i: int| 0 <= i < hs.len() ==> excerpts(#[trigger] hs[i], shown[i])
}

/// Every line that the hunks show has a number that counts from one.
pub open spec fn counted_from_one(shown: Seq<Seq<(u32, Seq<char>)>>) -> bool {
    forall|h: int, i: int|
        0 <= h < shown.len() && 0 <= i < shown[h].len() ==> 1 <= (#[trigger] shown[h][i]).0
}

proof fn lemma_visible_bounded(lines: Seq<LineModel>, side: SourceSide, floor: u32)
    ensures
        floor <= largest_on(lines, side, floor),
        forall|i: int|
            0 <= i < visible_lines(lines, side).len() ==> (#[trigger] visible_lines(lines, side)[i]).0
                <= largest_on(lines, side, floor),
    decreases lines.len(),
{
    if lines.len() > 0 {
        lemma_visible_bounded(lines.drop_last(), side, floor);
        let before = visible_lines(lines.drop_last(), side);
        let after = visible_lines(lines, side);
        assert forall|i: int| 0 <= i < after.len() implies (#[trigger] after[i]).0 <= largest_on(
            lines,
            side,
            floor,
        ) by {
            if i < before.len() {
                assert(after[i] == before[i]);
            }
        }
    }
}

proof fn lemma_shown_bounded(hunks: Seq<HunkModel>, side: SourceSide)
    ensures
        forall|h: int, i: int|
            0 <= h < shown_hunks(hunks, side).len() && 0 <= i < shown_hunks(hunks, side)[h].len()
                ==> (#[trigger] shown_hunks(hunks, side)[h][i]).0 <= largest_in(hunks, side),
    decreases hunks.len(),
{
    if hunks.len() > 0 {
        let floor = largest_in(hunks.drop_last(), side);
        lemma_shown_bounded(hunks.drop_last(), side);
        lemma_visible_bounded(hunks.last().lines, side, floor);
        let before = shown_hunks(hunks.drop_last(), side);
        let own = visible_lines(hunks.last().lines, side);
        let after = shown_hunks(hunks, side);
        assert forall|h: int, i: int|
            0 <= h < after.len() && 0 <= i < after[h].len() implies (#[trigger] after[h][i]).0
            <= largest_in(hunks, side) by {
            if h < before.len() {
                assert(after[h][i] == before[h][i]);
            } else {
                assert(after[h][i] == own[i]);
            }
        }
    }
}

proof fn lemma_placeable(excerpt: Excerpt, shown: Seq<Seq<(u32, Seq<char>)>>)
    requires
        all_excerpts(excerpt.hunks@, shown),
        forall|h: int, i: int|
            0 <= h < shown.len() && 0 <= i < shown[h].len() ==> (#[trigger] shown[h][i]).0
                <= excerpt.max_line,
    ensures
        placeable(excerpt) <==> counted_from_one(shown),
{
    assert forall|h: int, i: int|
        0 <= h < shown.len() && 0 <= i < shown[h].len() implies excerpt.hunks@[h].numbers@[i] == (
    #[trigger] shown[h][i]).0 by {
        assert(excerpts(excerpt.hunks@[h], shown[h]));
    }
    if counted_from_one(shown) {
        assert forall|h: int, i: int|
            0 <= h < excerpt.hunks@.len() && 0 <= i < excerpt.hunks@[h].numbers@.len() implies 1
            <= #[trigger] excerpt.hunks@[h].numbers@[i] <= excerpt.max_line by {
            assert(excerpts(excerpt.hunks@[h], shown[h]));
            assert(1 <= shown[h][i].0);
        }
    }
    if placeable(excerpt) {
        assert forall|h: int, i: int| 0 <= h < shown.len() && 0 <= i < shown[h].len() implies 1
            <= (#[trigger] shown[h][i]).0 by {
            assert(excerpts(excerpt.hunks@[h], shown[h]));
            assert(1 <= excerpt.hunks@[h].numbers@[i]);
        }
    }
}

/// What to highlight of one side of a diff: each hunk on its own. None where the line numbers
/// run too high to lay out.
pub fn excerpt_side(file: &FileDiff, side: SourceSide) -> (r: Option<Excerpt>)
    ensures
        r is Some <==> largest_in(file@.hunks, side) <= MAX_EXCERPT_SOURCE_LINES,
        r is Some ==> {
            &&& r->0.max_line == largest_in(file@.hunks, side)
            &&& all_excerpts(r->0.hunks@, shown_hunks(file@.hunks, side))
            &&& placeable(r->0) <==> counted_from_one(shown_hunks(file@.hunks, side))
        },
{
    let max_line = largest_line_on(file, side) as usize;
    if max_line > MAX_EXCERPT_SOURCE_LINES {
        return None;
    }
    let ghost models = file@.hunks;
    let mut hunks: Vec<ExcerptHunk> = Vec::new();
    for i in 0..file.hunks.len()
        invariant
            models == hunk_models(file.hunks@),
            all_excerpts(hunks@, shown_hunks(models.take(i as int), side)),
    {
        proof {
            assert(models.take(i + 1).drop_last() =~= models.take(i as int));
            assert(models.take(i + 1).last() == file.hunks@[i as int]@);
        }
        let own = excerpt_hunk(&file.hunks[i].lines, side);
        let ghost shown = visible_lines(file.hunks@[i as int]@.lines, side);
        assert(own.numbers@.len() == shown.len());
        if own.numbers.len() > 0 {
            hunks.push(own);
        }
    }
    assert(models.take(file.hunks@.len() as int) =~= models);
    let excerpt = Excerpt { max_line, hunks };
    proof {
        lemma_shown_bounded(models, side);
        lemma_placeable(excerpt, shown_hunks(models, side));
    }
    Some(excerpt)
}

/// The lines of a side after the spans of one hunk's lines are put where their numbers say.
pub open spec fn placed(
    lines: Seq<Seq<HighlightSpan>>,
    numbers: Seq<u32>,
    spans: Seq<Seq<HighlightSpan>>,
    n: nat,
) -> Seq<Seq<HighlightSpan>>
    decreases n,
{
    if n == 0 {
        lines
    } else {
        placed(lines, numbers, spans, (n - 1) as nat).update(numbers[n - 1] - 1, spans[n - 1])
    }
}

/// The spans of each line.
pub open spec fn span_rows(v: Seq<Vec<HighlightSpan>>) -> Seq<Seq<HighlightSpan>> {
    v.map_values(|l: Vec<HighlightSpan>| l@)
}

/// How many lines can be placed: those that have both a number and spans.
pub open spec fn paired(numbers: Seq<u32>, spans: Seq<Seq<HighlightSpan>>) -> nat {
    if numbers.len() <= spans.len() {
        numbers.len()
    } else {
        spans.len()
    }
}

/// The lines of a side after all hunks of an excerpt, or none where one could not be highlighted.
pub open spec fn placed_hunks(
    max_line: nat,
    hunks: Seq<ExcerptHunk>,
    documents: Seq<Option<HighlightedDocument>>,
    n: nat,
) -> Option<Seq<Seq<HighlightSpan>>>
    decreases n,
{
    if n == 0 {
        Some(Seq::new(max_line, |i: int| Seq::empty()))
    } else {
        match (placed_hunks(max_line, hunks, documents, (n - 1) as nat), documents[n - 1]) {
            (Some(lines), Some(d)) => Some(
                placed(
                    lines,
                    hunks[n - 1].numbers@,
                    span_rows(d.lines@),
                    paired(hunks[n - 1].numbers@, span_rows(d.lines@)),
                ),
            ),
            _ => None,
        }
    }
}

/// Each line number of an excerpt is a line of its side.
pub open spec fn placeable(excerpt: Excerpt) -> bool {
    forall|h: int, i: int|
        0 <= h < excerpt.hunks@.len() && 0 <= i < excerpt.hunks@[h].numbers@.len() ==> 1
            <= #[trigger] excerpt.hunks@[h].numbers@[i] <= excerpt.max_line
}

/// Lay an excerpt's highlighted hunks out by line number: the document of the whole side, empty
/// where no hunk reaches. None where a hunk could not be highlighted.
pub fn place_excerpt(excerpt: &Excerpt, documents: &Vec<Option<HighlightedDocument>>) -> (r: Option<
    HighlightedDocument,
>)
    requires
        documents@.len() == excerpt.hunks@.len(),
        placeable(*excerpt),
    ensures
        match (
            r,
            placed_hunks(
                excerpt.max_line as nat,
                excerpt.hunks@,
                documents@,
                documents@.len(),
            ),
        ) {
            (Some(d), Some(lines)) => span_rows(d.lines@) == lines,
            (None, None) => true,
            _ => false,
        },
{
    let mut lines: Vec<Vec<HighlightSpan>> = Vec::new();
    for i in 0..excerpt.max_line
        invariant
            lines@.len() == i,
            forall|k: int| 0 <= k < i ==> (#[trigger] lines@[k])@.len() == 0,
    {
        lines.push(Vec::new());
    }
    let ghost max = excerpt.max_line as nat;
    let ghost hunks = excerpt.hunks@;
    assert(span_rows(lines@) =~= Seq::new(max, |i: int| Seq::<HighlightSpan>::empty())) by {
        assert forall|k: int| 0 <= k < max implies #[trigger] span_rows(lines@)[k]
            =~= Seq::<HighlightSpan>::empty() by {}
    }
    for h in 0..documents.len()
        invariant
            hunks == excerpt.hunks@,
            max == excerpt.max_line,
            documents@.len() == hunks.len(),
            placeable(*excerpt),
            lines@.len() == max,
            placed_hunks(max, hunks, documents@, h as nat) == Some(span_rows(lines@)),
    {
        match &documents[h] {
            Some(document) => {
                let ghost start = span_rows(lines@);
                let ghost spans = span_rows(document.lines@);
                let ghost numbers = hunks[h as int].numbers@;
                let count: usize = if excerpt.hunks[h].numbers.len() <= document.lines.len() {
                    excerpt.hunks[h].numbers.len()
                } else {
                    document.lines.len()
                };
                for i in 0..count
                    invariant
                        hunks == excerpt.hunks@,
                        max == excerpt.max_line,
                        placeable(*excerpt),
                        h < hunks.len(),
                        numbers == hunks[h as int].numbers@,
                        spans == span_rows(document.lines@),
                        count == paired(numbers, spans),
                        lines@.len() == max,
                        span_rows(lines@) == placed(start, numbers, spans, i as nat),
                {
                    let number: u32 = excerpt.hunks[h].numbers[i];
                    assert(1 <= excerpt.hunks@[h as int].numbers@[i as int] <= excerpt.max_line);
                    let at: usize = number as usize - 1;
                    let own = vstd::slice::slice_to_vec(document.lines[i].as_slice());
                    let ghost before = lines@;
                    lines[at] = own;
                    assert(span_rows(lines@) =~= span_rows(before).update(at as int, own@));
                }
            },
            None => {
                proof {
                    lemma_unplaced(max, hunks, documents@, h as nat, documents@.len());
                }
                return None;
            },
        }
    }
    Some(HighlightedDocument { lines })
}

/// Whether an excerpt can be laid out.
pub fn is_placeable(excerpt: &Excerpt) -> (r: bool)
    ensures
        r == placeable(*excerpt),
{
    for h in 0..excerpt.hunks.len()
        invariant
            forall|g: int, i: int|
                0 <= g < h && 0 <= i < excerpt.hunks@[g].numbers@.len() ==> 1
                    <= #[trigger] excerpt.hunks@[g].numbers@[i] <= excerpt.max_line,
    {
        let count: usize = excerpt.hunks[h].numbers.len();
        for i in 0..count
            invariant
                h < excerpt.hunks@.len(),
                count == excerpt.hunks@[h as int].numbers@.len(),
                forall|k: int|
                    0 <= k < i ==> 1 <= #[trigger] excerpt.hunks@[h as int].numbers@[k]
                        <= excerpt.max_line,
        {
            let number: u32 = excerpt.hunks[h].numbers[i];
            if number < 1 || number as usize > excerpt.max_line {
                assert(excerpt.hunks@[h as int].numbers@[i as int] == number);
                return false;
            }
        }
    }
    true
}

/// Lay an excerpt's highlighted hunks out, where that can be done: where each hunk has its outcome,
/// and each number is a line of the side.
pub fn try_place_excerpt(
    excerpt: &Excerpt,
    documents: &Vec<Option<HighlightedDocument>>,
) -> (r: Option<Option<HighlightedDocument>>)
    ensures
        r is Some <==> documents@.len() == excerpt.hunks@.len() && placeable(*excerpt),
        r matches Some(placed) ==> match (
            placed,
            placed_hunks(
                excerpt.max_line as nat,
                excerpt.hunks@,
                documents@,
                documents@.len(),
            ),
        ) {
            (Some(d), Some(lines)) => span_rows(d.lines@) == lines,
            (None, None) => true,
            _ => false,
        },
{
    if documents.len() != excerpt.hunks.len() || !is_placeable(excerpt) {
        return None;
    }
    Some(place_excerpt(excerpt, documents))
}

proof fn lemma_unplaced(
    max: nat,
    hunks: Seq<ExcerptHunk>,
    documents: Seq<Option<HighlightedDocument>>,
    h: nat,
    n: nat,
)
    requires
        h < n,
        documents[h as int] is None,
    ensures
        placed_hunks(max, hunks, documents, n) is None,
    decreases n,
{
    if n > h + 1 {
        lemma_unplaced(max, hunks, documents, h, (n - 1) as nat);
    }
}

/// The sides whose excerpts are highlighted: an added file has no old side, a deleted one no new.
pub open spec fn wants_side(status: FileStatus, side: SourceSide) -> bool {
    match side {
        SourceSide::Old => status != FileStatus::Added,
        SourceSide::New => status != FileStatus::Deleted,
    }
}

pub fn has_side(file: &FileDiff, side: SourceSide) -> (r: bool)
    ensures
        r == wants_side(file.status, side),
{
    match side {
        SourceSide::Old => file.status != FileStatus::Added,
        SourceSide::New => file.status != FileStatus::Deleted,
    }
}

/// The path that a side is highlighted as.
pub open spec fn side_path_of(file: FileModel, side: SourceSide) -> Seq<char> {
    match (side, file.old_path) {
        (SourceSide::Old, Some(old)) => old,
        _ => file.path,
    }
}

pub fn side_path(file: &FileDiff, side: SourceSide) -> (r: String)
    ensures
        r@ == side_path_of(file@, side),
{
    match side {
        SourceSide::Old => match &file.old_path {
            Some(old) => old.clone(),
            None => file.path.clone(),
        },
        SourceSide::New => file.path.clone(),
    }
}

/// The highlights of a diff's excerpts: none at all where a side that the file has failed.
pub fn excerpt_highlights(
    file: &FileDiff,
    supported: bool,
    old: Option<HighlightedDocument>,
    new: Option<HighlightedDocument>,
) -> (r: Option<DiffHighlights>)
    ensures
        r is Some <==> supported && (wants_side(file.status, SourceSide::Old) ==> old is Some) && (
        wants_side(file.status, SourceSide::New) ==> new is Some),
        r is Some ==> {
            &&& r->0.old == if wants_side(file.status, SourceSide::Old) {
                old
            } else {
                None
            }
            &&& r->0.new == if wants_side(file.status, SourceSide::New) {
                new
            } else {
                None
            }
        },
{
    if !supported {
        return None;
    }
    let old = if has_side(file, SourceSide::Old) {
        if old.is_none() {
            return None;
        }
        old
    } else {
        None
    };
    let new = if has_side(file, SourceSide::New) {
        if new.is_none() {
            return None;
        }
        new
    } else {
        None
    };
    Some(DiffHighlights { old, new })
}

// ---------------------------------------------------------------------------
// Full sources
// ---------------------------------------------------------------------------

/// The sources of one file's diff, as the engine hands them over.
#[derive(Debug, Clone, PartialEq, Eq)]
pub struct CheckoutFileDiffText {
    pub old_text: Option<String>,
    pub new_text: Option<String>,
    pub binary: bool,
    pub truncated: bool,
    pub stale: bool,
}

/// A one-based line of a source.
pub open spec fn source_line(source: Option<Seq<char>>, number: Option<u32>) -> Option<Seq<char>> {
    match (source, number) {
        (Some(text), Some(n)) => if 1 <= n <= text_lines(text).len() {
            Some(text_lines(text)[n - 1])
        } else {
            None
        },
        _ => None,
    }
}

/// What the sources hold where a diff line says it stands.
pub open spec fn actual_line(
    line: LineModel,
    old: Option<Seq<char>>,
    new: Option<Seq<char>>,
) -> Option<Seq<char>> {
    match line.kind {
        LineKind::Del => source_line(old, line.old_no),
        LineKind::Add => source_line(new, line.new_no),
        _ => match source_line(new, line.new_no) {
            Some(text) => Some(text),
            None => source_line(old, line.old_no),
        },
    }
}

/// Whether every line of the hunks stands in the sources, meta lines apart.
pub open spec fn hunks_match(
    hunks: Seq<HunkModel>,
    old: Option<Seq<char>>,
    new: Option<Seq<char>>,
) -> bool {
    forall|h: int, i: int|
        0 <= h < hunks.len() && 0 <= i < hunks[h].lines.len() ==> {
            let line = #[trigger] hunks[h].lines[i];
            line.kind != LineKind::Meta ==> actual_line(line, old, new) == Some(line.text)
        }
}

fn lines_of(source: &Option<String>) -> (r: Option<Vec<Vec<char>>>)
    ensures
        r is Some <==> source is Some,
        r is Some ==> rows(r->0@) == text_lines(source->0@),
{
    match source {
        Some(text) => {
            let chars = chars_of(text.as_str());
            Some(split_lines(chars.as_slice()))
        },
        None => None,
    }
}

/// Whether a source's line holds the text; `None` where it has no such line.
fn line_is(lines: &Option<Vec<Vec<char>>>, number: Option<u32>, text: &str) -> (r: Option<bool>)
    ensures
        forall|source: Seq<char>|
            lines is Some && #[trigger] text_lines(source) == rows(lines->0@) ==> match source_line(
                Some(source),
                number,
            ) {
                Some(line) => r == Some(line == text@),
                None => r is None,
            },
        lines is None ==> r is None,
{
    match (lines, number) {
        (Some(lines), Some(n)) => {
            let n = n as usize;
            assert(rows(lines@).len() == lines@.len());
            if 1 <= n && n <= lines.len() {
                assert(rows(lines@)[n - 1] == lines@[n - 1]@);
                Some(spells(lines[n - 1].as_slice(), text))
            } else {
                None
            }
        },
        _ => None,
    }
}

/// Whether the fetched sources are the ones that the patch was taken from: a snapshot that moved
/// on must not color the diff.
pub fn sources_match_patch(file: &FileDiff, response: &CheckoutFileDiffText) -> (r: bool)
    ensures
        r == hunks_match(file@.hunks, opt_text(response.old_text), opt_text(response.new_text)),
{
    let old = lines_of(&response.old_text);
    let new = lines_of(&response.new_text);
    let ghost old_text = opt_text(response.old_text);
    let ghost new_text = opt_text(response.new_text);
    let ghost hunks = file@.hunks;
    for h in 0..file.hunks.len()
        invariant
            hunks == hunk_models(file.hunks@),
            old_text == opt_text(response.old_text),
            new_text == opt_text(response.new_text),
            old is Some <==> old_text is Some,
            old is Some ==> rows(old->0@) == text_lines(old_text->0),
            new is Some <==> new_text is Some,
            new is Some ==> rows(new->0@) == text_lines(new_text->0),
            hunks_match(hunks.take(h as int), old_text, new_text),
    {
        let count: usize = file.hunks[h].lines.len();
        let ghost own = hunks[h as int].lines;
        for i in 0..count
            invariant
                hunks == hunk_models(file.hunks@),
                h < file.hunks@.len(),
                count == file.hunks@[h as int].lines@.len(),
                own == hunks[h as int].lines,
                own == line_models(file.hunks@[h as int].lines@),
                old_text == opt_text(response.old_text),
                new_text == opt_text(response.new_text),
                old is Some <==> old_text is Some,
                old is Some ==> rows(old->0@) == text_lines(old_text->0),
                new is Some <==> new_text is Some,
                new is Some ==> rows(new->0@) == text_lines(new_text->0),
                forall|k: int|
                    0 <= k < i ==> {
                        let line = #[trigger] own[k];
                        line.kind != LineKind::Meta ==> actual_line(line, old_text, new_text)
                            == Some(line.text)
                    },
        {
            let line = &file.hunks[h].lines[i];
            assert(own[i as int] == line@);
            let matched: Option<bool> = match line.kind {
                LineKind::Del => line_is(&old, line.old_no, line.text.as_str()),
                LineKind::Add => line_is(&new, line.new_no, line.text.as_str()),
                LineKind::Context => match line_is(&new, line.new_no, line.text.as_str()) {
                    Some(b) => Some(b),
                    None => line_is(&old, line.old_no, line.text.as_str()),
                },
                LineKind::Meta => Some(true),
            };
            proof {
                if old is Some {
                    assert(text_lines(old_text->0) == rows(old->0@));
                }
                if new is Some {
                    assert(text_lines(new_text->0) == rows(new->0@));
                }
                if line.kind != LineKind::Meta {
                    assert(matched == match actual_line(line@, old_text, new_text) {
                        Some(text) => Some(text == line.text@),
                        None => None::<bool>,
                    });
                }
            }
            let good = match matched {
                Some(b) => b,
                None => false,
            };
            if !good {
                assert(hunks[h as int].lines[i as int] == line@);
                return false;
            }
        }
        proof {
            assert forall|g: int, i: int|
                0 <= g < hunks.take(h + 1).len() && 0 <= i < hunks.take(
                    h + 1,
                )[g].lines.len() implies ({
                let line = #[trigger] hunks.take(h + 1)[g].lines[i];
                line.kind != LineKind::Meta ==> actual_line(line, old_text, new_text) == Some(
                    line.text,
                )
            }) by {
                if g < h {
                    assert(hunks.take(h + 1)[g].lines[i] == hunks.take(h as int)[g].lines[i]);
                } else {
                    assert(hunks.take(h + 1)[g].lines[i] == own[i]);
                }
            }
        }
    }
    assert(hunks.take(file.hunks@.len() as int) =~= hunks);
    true
}

/// Whether fetched sources may be highlighted at all.
pub open spec fn usable(file: FileModel, response: CheckoutFileDiffText) -> bool {
    &&& !response.stale
    &&& !response.binary
    &&& !response.truncated
    &&& hunks_match(file.hunks, opt_text(response.old_text), opt_text(response.new_text))
}

pub fn full_sources(file: &FileDiff, response: &CheckoutFileDiffText) -> (r: bool)
    ensures
        r == usable(file@, *response),
{
    !response.stale && !response.binary && !response.truncated && sources_match_patch(
        file,
        response,
    )
}

/// The highlights of a diff's full sources, taken all together or not at all: every source that
/// came must have been highlighted, and there must be one.
pub fn full_highlights(
    file: &FileDiff,
    supported: bool,
    response: &CheckoutFileDiffText,
    old: Option<HighlightedDocument>,
    new: Option<HighlightedDocument>,
) -> (r: Option<DiffHighlights>)
    ensures
        r is Some <==> {
            &&& usable(file@, *response)
            &&& response.old_text is Some ==> old is Some
            &&& response.new_text is Some ==> new is Some
            &&& response.old_text is Some || response.new_text is Some || !supported
        },
        r is Some ==> {
            &&& r->0.old == if response.old_text is Some {
                old
            } else {
                None
            }
            &&& r->0.new == if response.new_text is Some {
                new
            } else {
                None
            }
        },
{
    if !full_sources(file, response) {
        return None;
    }
    let old = if response.old_text.is_some() {
        if old.is_none() {
            return None;
        }
        old
    } else {
        None
    };
    let new = if response.new_text.is_some() {
        if new.is_none() {
            return None;
        }
        new
    } else {
        None
    };
    if old.is_none() && new.is_none() && supported {
        return None;
    }
    Some(DiffHighlights { old, new })
}

// ---------------------------------------------------------------------------
// Requests
// ---------------------------------------------------------------------------

/// How far a file's highlighting has come.
#[derive(Debug, PartialEq, Eq)]
pub enum DiffHighlightState {
    Pending,
    /// The full sources are highlighted.
    Ready(DiffHighlights),
    /// The excerpts are; the full sources may still come.
    Excerpt(DiffHighlights),
    /// Nothing is, nor will be from the excerpts.
    Plain,
}

/// The highlighting of one file of the diff on show.
#[derive(Debug, PartialEq, Eq)]
pub struct HighlightSlot {
    /// The number of the request that opened the slot, which tells it from every other one.
    pub number: u64,
    /// Identity of the diff and the path that the slot is for.
    pub fingerprint: u64,
    pub state: DiffHighlightState,
}

/// What a row that needs colors is answered.
#[derive(Debug, Clone, Copy, PartialEq, Eq, Structural)]
pub enum HighlightAnswer {
    /// No language is known for the path.
    NoLanguage,
    /// The slot's highlights can be used.
    Use,
    /// There is nothing to use, now or yet.
    Wait,
    /// Both the excerpts ([`excerpt_side`]) and the full sources
    /// ([`crate::pane::Changes::file_text_request`]) are to be requested.
    Start,
}

pub open spec fn has_highlights(state: DiffHighlightState) -> bool {
    state is Ready || state is Excerpt
}

/// Answer a row that needs colors, and open the file's slot where the diff is a new one; `number`
/// is then the number of its requests, which supersede those of the slot before. A path without a
/// language never gets a slot; one whose language has no highlighter gets a plain one.
pub fn request_highlight(
    slot: &mut Option<HighlightSlot>,
    number: u64,
    fingerprint: u64,
    has_language: bool,
    supported: bool,
) -> (r: HighlightAnswer)
    ensures
        !has_language ==> r == HighlightAnswer::NoLanguage && *final(slot) == *old(slot),
        has_language && (*old(slot) is Some && (*old(slot))->0.fingerprint == fingerprint) ==> {
            &&& *final(slot) == *old(slot)
            &&& r == if has_highlights((*old(slot))->0.state) {
                HighlightAnswer::Use
            } else {
                HighlightAnswer::Wait
            }
        },
        has_language && !(*old(slot) is Some && (*old(slot))->0.fingerprint == fingerprint) ==> {
            &&& *final(slot) == Some(
                HighlightSlot {
                    number,
                    fingerprint,
                    state: if supported {
                        DiffHighlightState::Pending
                    } else {
                        DiffHighlightState::Plain
                    },
                },
            )
            &&& r == if supported {
                HighlightAnswer::Start
            } else {
                HighlightAnswer::Wait
            }
        },
{
    if !has_language {
        return HighlightAnswer::NoLanguage;
    }
    if let Some(s) = slot {
        if s.fingerprint == fingerprint {
            return match &s.state {
                DiffHighlightState::Ready(_) => HighlightAnswer::Use,
                DiffHighlightState::Excerpt(_) => HighlightAnswer::Use,
                DiffHighlightState::Pending => HighlightAnswer::Wait,
                DiffHighlightState::Plain => HighlightAnswer::Wait,
            };
        }
    }
    if supported {
        *slot = Some(HighlightSlot { number, fingerprint, state: DiffHighlightState::Pending });
        HighlightAnswer::Start
    } else {
        *slot = Some(HighlightSlot { number, fingerprint, state: DiffHighlightState::Plain });
        HighlightAnswer::Wait
    }
}

/// Whether the slot is still the one that a request opened.
pub open spec fn opened_by(slot: Option<HighlightSlot>, number: u64) -> bool {
    slot is Some && slot->0.number == number
}

/// The excerpts were highlighted, or could not be. Only a slot that still waits takes them: the
/// full sources, once there, stay, and the answer to a superseded request is dropped. Returns
/// whether the slot changed.
pub fn finish_excerpt(
    slot: &mut Option<HighlightSlot>,
    number: u64,
    highlights: Option<DiffHighlights>,
) -> (changed: bool)
    ensures
        changed == (opened_by(*old(slot), number) && (*old(slot))->0.state is Pending),
        !changed ==> *final(slot) == *old(slot),
        changed ==> *final(slot) == Some(
            HighlightSlot {
                number,
                fingerprint: (*old(slot))->0.fingerprint,
                state: match highlights {
                    Some(h) => DiffHighlightState::Excerpt(h),
                    None => DiffHighlightState::Plain,
                },
            },
        ),
{
    let waits: Option<u64> = match slot {
        Some(s) => if s.number == number && matches!(s.state, DiffHighlightState::Pending) {
            Some(s.fingerprint)
        } else {
            None
        },
        None => None,
    };
    match waits {
        Some(fingerprint) => {
            *slot = Some(
                HighlightSlot {
                    number,
                    fingerprint,
                    state: match highlights {
                        Some(h) => DiffHighlightState::Excerpt(h),
                        None => DiffHighlightState::Plain,
                    },
                },
            );
            true
        },
        None => false,
    }
}

/// The full sources were highlighted, or could not be; a failure leaves what the excerpts gave, and
/// the answer to a superseded request is dropped. Returns whether the slot changed.
pub fn finish_full(
    slot: &mut Option<HighlightSlot>,
    number: u64,
    highlights: Option<DiffHighlights>,
) -> (changed: bool)
    ensures
        changed == (opened_by(*old(slot), number) && highlights is Some),
        !changed ==> *final(slot) == *old(slot),
        changed ==> *final(slot) == Some(
            HighlightSlot {
                number,
                fingerprint: (*old(slot))->0.fingerprint,
                state: DiffHighlightState::Ready(highlights->0),
            },
        ),
{
    let current: Option<u64> = match slot {
        Some(s) => if s.number == number {
            Some(s.fingerprint)
        } else {
            None
        },
        None => None,
    };
    match (current, highlights) {
        (Some(fingerprint), Some(h)) => {
            *slot = Some(
                HighlightSlot { number, fingerprint, state: DiffHighlightState::Ready(h) },
            );
            true
        },
        _ => false,
    }
}

// ---------------------------------------------------------------------------
// Where colors come from
// ---------------------------------------------------------------------------

/// A line takes its colors from the source that holds it: a deleted one from the old source and an
/// added one from the new, each at its own number there. An unchanged line is in both, and the new
/// source is preferred where it is highlighted. A note has none.
pub proof fn law_lines_are_colored_from_their_source(line: LineModel, has_new: bool)
    ensures
        line.kind == LineKind::Del && line.old_no is Some ==> source_of(has_new, line) == Some(
            SourceLineRef { side: SourceSide::Old, line_number: line.old_no->0 },
        ),
        line.kind == LineKind::Add && line.new_no is Some ==> source_of(has_new, line) == Some(
            SourceLineRef { side: SourceSide::New, line_number: line.new_no->0 },
        ),
        line.kind == LineKind::Context && line.new_no is Some && has_new ==> source_of(has_new, line)
            == Some(SourceLineRef { side: SourceSide::New, line_number: line.new_no->0 }),
        line.kind == LineKind::Context && line.old_no is Some && !has_new ==> source_of(
            has_new,
            line,
        ) == Some(SourceLineRef { side: SourceSide::Old, line_number: line.old_no->0 }),
        line.kind == LineKind::Meta ==> source_of(has_new, line) is None,
{
}

/// The first line of a document is line one.
pub proof fn law_documents_are_counted_from_one(document: HighlightedDocument, i: int)
    requires
        0 <= i < document.lines@.len(),
        i < u32::MAX,
    ensures
        spans_at(Some(document), (i + 1) as u32) == document.lines@[i]@,
        spans_at(Some(document), 0).len() == 0,
{
}

/// One side of a hunk shows exactly its own lines, in order: each line with a number on that side
/// that is no note stands in the excerpt, with its number and its text, behind those before it.
pub proof fn law_excerpts_show_one_side(lines: Seq<LineModel>, side: SourceSide, i: int)
    requires
        0 <= i < lines.len(),
    ensures
        ({
            let shown = visible_lines(lines, side);
            let at = visible_lines(lines.take(i), side).len() as int;
            let number = if side == SourceSide::Old {
                lines[i].old_no
            } else {
                lines[i].new_no
            };
            if number is Some && lines[i].kind != LineKind::Meta {
                &&& at < shown.len()
                &&& shown[at] == (number->0, lines[i].text)
                &&& visible_lines(lines.take(i + 1), side).len() == at + 1
            } else {
                visible_lines(lines.take(i + 1), side).len() == at
            }
        }),
    decreases lines.len(),
{
    assert(lines.take(i + 1).drop_last() =~= lines.take(i));
    let front = lines.drop_last();
    if i < front.len() {
        assert(front[i] == lines[i]);
        assert(front.take(i) =~= lines.take(i));
        law_excerpts_show_one_side(front, side, i);
    } else {
        assert(lines.take(i) =~= front);
    }
}

/// The largest number on a side is one that no line of the side goes beyond, and that some line has.
pub proof fn law_sides_are_as_long_as_their_last_line(lines: Seq<LineModel>, side: SourceSide, floor: u32)
    ensures
        floor <= largest_on(lines, side, floor),
        forall|i: int|
            0 <= i < lines.len() ==> {
                let line = #[trigger] lines[i];
                &&& side == SourceSide::Old && line.old_no is Some ==> line.old_no->0 <= largest_on(
                    lines,
                    side,
                    floor,
                )
                &&& side == SourceSide::New && line.new_no is Some ==> line.new_no->0 <= largest_on(
                    lines,
                    side,
                    floor,
                )
            },
        largest_on(lines, side, floor) == floor || exists|i: int|
            0 <= i < lines.len() && ((side == SourceSide::Old && (#[trigger] lines[i]).old_no
                == Some(largest_on(lines, side, floor))) || (side == SourceSide::New
                && lines[i].new_no == Some(largest_on(lines, side, floor)))),
    decreases lines.len(),
{
    if lines.len() > 0 {
        let front = lines.drop_last();
        law_sides_are_as_long_as_their_last_line(front, side, floor);
        assert forall|i: int| 0 <= i < front.len() implies #[trigger] lines[i] == front[i] by {}
        let last = lines.len() - 1;
        let before = largest_on(front, side, floor);
        if largest_on(lines, side, floor) == before {
            if before != floor {
                let i = choose|i: int|
                    0 <= i < front.len() && ((side == SourceSide::Old && (
                    #[trigger] front[i]).old_no == Some(before)) || (side == SourceSide::New
                        && front[i].new_no == Some(before)));
                assert(lines[i] == front[i]);
            }
        } else {
            assert(lines[last] == lines.last());
        }
    }
}

/// The spans of an excerpt's lines are put where the lines' numbers say, and nowhere else.
pub proof fn law_spans_go_where_the_numbers_say(
    lines: Seq<Seq<HighlightSpan>>,
    numbers: Seq<u32>,
    spans: Seq<Seq<HighlightSpan>>,
    n: nat,
)
    requires
        n <= numbers.len(),
        n <= spans.len(),
        forall|k: int| 0 <= k < numbers.len() ==> 1 <= #[trigger] numbers[k] <= lines.len(),
        forall|j: int, k: int|
            0 <= j < k < numbers.len() ==> #[trigger] numbers[j] != #[trigger] numbers[k],
    ensures
        placed(lines, numbers, spans, n).len() == lines.len(),
        forall|k: int|
            0 <= k < n ==> placed(lines, numbers, spans, n)[#[trigger] numbers[k] - 1] == spans[k],
        forall|i: int|
            0 <= i < lines.len() && !numbers.take(n as int).contains((i + 1) as u32)
                ==> #[trigger] placed(lines, numbers, spans, n)[i] == lines[i],
    decreases n,
{
    if n > 0 {
        let m = (n - 1) as nat;
        law_spans_go_where_the_numbers_say(lines, numbers, spans, m);
        let before = placed(lines, numbers, spans, m);
        let after = placed(lines, numbers, spans, n);
        assert(1 <= numbers[m as int] <= lines.len());
        assert forall|k: int| 0 <= k < n implies after[#[trigger] numbers[k] - 1] == spans[k] by {
            if k < m {
                assert(numbers[k] != numbers[m as int]);
            }
        }
        assert forall|i: int|
            0 <= i < lines.len() && !numbers.take(n as int).contains(
                (i + 1) as u32,
            ) implies #[trigger] after[i] == lines[i] by {
            let taken = numbers.take(n as int);
            assert(taken[m as int] == numbers[m as int]);
            if numbers.take(m as int).contains((i + 1) as u32) {
                let k = choose|k: int|
                    0 <= k < m && numbers.take(m as int)[k] == (i + 1) as u32;
                assert(taken[k] == (i + 1) as u32);
            }
            if numbers[m as int] - 1 == i {
                assert(numbers[m as int] == (i + 1) as u32);
            }
        }
    }
}

/// Sources are used only where they are the ones that the patch was taken from: fresh, whole, text,
/// and holding each deleted line in the old source and each added one in the new, letter for letter
/// and at its number.
pub proof fn law_used_sources_hold_the_patch(
    file: FileModel,
    response: CheckoutFileDiffText,
    h: int,
    i: int,
)
    requires
        usable(file, response),
        0 <= h < file.hunks.len(),
        0 <= i < file.hunks[h].lines.len(),
    ensures
        !response.stale && !response.binary && !response.truncated,
        ({
            let line = file.hunks[h].lines[i];
            &&& line.kind == LineKind::Del ==> {
                &&& response.old_text matches Some(text)
                &&& line.old_no matches Some(no)
                &&& 1 <= no <= text_lines(text@).len()
                &&& text_lines(text@)[no - 1] == line.text
            }
            &&& line.kind == LineKind::Add ==> {
                &&& response.new_text matches Some(text)
                &&& line.new_no matches Some(no)
                &&& 1 <= no <= text_lines(text@).len()
                &&& text_lines(text@)[no - 1] == line.text
            }
        }),
{
    let line = file.hunks[h].lines[i];
    assert(line == file.hunks[h].lines[i]);
}

/// An added file has no old side and a deleted one no new side; every other file has both. The old
/// side is read under the path from before a rename.
pub proof fn law_files_have_the_sides_that_exist(file: FileModel)
    ensures
        wants_side(file.status, SourceSide::Old) <==> file.status != FileStatus::Added,
        wants_side(file.status, SourceSide::New) <==> file.status != FileStatus::Deleted,
        side_path_of(file, SourceSide::New) == file.path,
        file.old_path is None ==> side_path_of(file, SourceSide::Old) == file.path,
        file.old_path is Some ==> side_path_of(file, SourceSide::Old) == file.old_path->0,
{
}

/// The hunks of an excerpt are those that show something on the side, in order: a hunk with a line
/// there stands behind those before it, and one without is left out.
pub proof fn law_excerpts_keep_the_hunks(hunks: Seq<HunkModel>, side: SourceSide, h: int)
    requires
        0 <= h < hunks.len(),
    ensures
        ({
            let own = visible_lines(hunks[h].lines, side);
            let at = shown_hunks(hunks.take(h), side).len() as int;
            if own.len() > 0 {
                &&& at < shown_hunks(hunks, side).len()
                &&& shown_hunks(hunks, side)[at] == own
                &&& shown_hunks(hunks.take(h + 1), side).len() == at + 1
            } else {
                shown_hunks(hunks.take(h + 1), side).len() == at
            }
        }),
    decreases hunks.len(),
{
    assert(hunks.take(h + 1).drop_last() =~= hunks.take(h));
    let front = hunks.drop_last();
    if h < front.len() {
        assert(front[h] == hunks[h]);
        assert(front.take(h) =~= hunks.take(h));
        law_excerpts_keep_the_hunks(front, side, h);
    } else {
        assert(hunks.take(h) =~= front);
    }
}

/// An excerpt is highlighted as a whole or not at all.
pub proof fn law_excerpts_are_highlighted_whole(
    max_line: nat,
    hunks: Seq<ExcerptHunk>,
    documents: Seq<Option<HighlightedDocument>>,
    n: nat,
)
    ensures
        placed_hunks(max_line, hunks, documents, n) is Some <==> forall|h: int|
            0 <= h < n ==> (#[trigger] documents[h]) is Some,
    decreases n,
{
    if n > 0 {
        law_excerpts_are_highlighted_whole(max_line, hunks, documents, (n - 1) as nat);
        if forall|h: int| 0 <= h < n ==> (#[trigger] documents[h]) is Some {
            assert(documents[n - 1] is Some);
        }
    }
}

} // verus!
