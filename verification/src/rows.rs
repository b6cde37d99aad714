//! The diff flattened to rows: one virtualized list row per visible line.

use std::ops::Range;

use vstd::prelude::*;

use crate::comments::{CommentSide, DiffComment};
use crate::patch::{
    anchor_of, count_lines, file_models, file_notices, hunk_lines, hunk_models, line_anchor,
    line_models, notices_of, total_lines, FileDiff, FileModel, HunkModel, LineModel,
};
use crate::text::{same_str, texts};

verus! {

/// One virtualized list row. The diff is flattened so each visible LINE is
/// its own row: scrolling a 10k-line file materializes ~50 line rows per frame,
/// not one 10k-line element, and a collapsed file contributes no body rows at
/// all.
#[derive(Debug, Clone, Copy, PartialEq, Eq, Structural)]
pub enum DiffRow {
    FileHeader { file: u32 },
    Notice { file: u32, notice: u32 },
    HunkHeader { file: u32, hunk: u32 },
    Line {
        file: u32,
        hunk: u32,
        line: u32,
        /// Flat index across the file's hunks — keys into the highlight slot.
        flat: u32,
    },
    /// `card` indexes the file's own staged-comment slice, in staged order.
    CommentCard { file: u32, card: u32 },
    CommentDraft { file: u32 },
    /// Trailing pad closing an expanded body.
    BodyPad { file: u32 },
    /// A body mid-fold-tween: one height-animated, clipped row standing in
    /// for the whole body. Only the slice that can be revealed is built —
    /// the tween never pays for off-screen lines.
    FoldingBody { file: u32 },
}

/// Where a comment or a draft is pinned.
pub type Anchor = (CommentSide, u32);

/// The file that a row belongs to.
pub open spec fn file_of(row: DiffRow) -> u32 {
    match row {
        DiffRow::FileHeader { file } => file,
        DiffRow::Notice { file, .. } => file,
        DiffRow::HunkHeader { file, .. } => file,
        DiffRow::Line { file, .. } => file,
        DiffRow::CommentCard { file, .. } => file,
        DiffRow::CommentDraft { file } => file,
        DiffRow::BodyPad { file } => file,
        DiffRow::FoldingBody { file } => file,
    }
}

// ---------------------------------------------------------------------------
// One file's body
// ---------------------------------------------------------------------------

pub open spec fn notice_rows(file: u32, n: nat) -> Seq<DiffRow> {
    Seq::new(n, |i: int| DiffRow::Notice { file, notice: i as u32 })
}

/// The cards of those of the first `n` comments that are pinned to `anchor`.
pub open spec fn card_rows_upto(file: u32, anchors: Seq<Anchor>, anchor: Anchor, n: nat) -> Seq<
    DiffRow,
>
    decreases n,
{
    if n == 0 {
        Seq::empty()
    } else {
        let before = card_rows_upto(file, anchors, anchor, (n - 1) as nat);
        if anchors[n - 1] == anchor {
            before.push(DiffRow::CommentCard { file, card: (n - 1) as u32 })
        } else {
            before
        }
    }
}

/// What stands under a line: the cards pinned to it, in staged order, then the draft.
pub open spec fn under_line(
    file: u32,
    anchors: Seq<Anchor>,
    draft: Option<Anchor>,
    anchor: Option<Anchor>,
) -> Seq<DiffRow> {
    match anchor {
        None => Seq::empty(),
        Some(a) => {
            let cards = card_rows_upto(file, anchors, a, anchors.len());
            if draft == Some(a) {
                cards.push(DiffRow::CommentDraft { file })
            } else {
                cards
            }
        },
    }
}

/// The rows of the first `n` lines of a hunk whose first line has flat index `base`.
pub open spec fn line_rows(
    file: u32,
    hunk: u32,
    base: nat,
    lines: Seq<LineModel>,
    anchors: Seq<Anchor>,
    draft: Option<Anchor>,
    n: nat,
) -> Seq<DiffRow>
    decreases n,
{
    if n == 0 {
        Seq::empty()
    } else {
        line_rows(file, hunk, base, lines, anchors, draft, (n - 1) as nat).push(
            DiffRow::Line { file, hunk, line: (n - 1) as u32, flat: (base + n - 1) as u32 },
        ) + under_line(file, anchors, draft, anchor_of(lines[n - 1]))
    }
}

/// The rows of the first `n` hunks.
pub open spec fn hunk_rows(
    file: u32,
    hunks: Seq<HunkModel>,
    anchors: Seq<Anchor>,
    draft: Option<Anchor>,
    n: nat,
) -> Seq<DiffRow>
    decreases n,
{
    if n == 0 {
        Seq::empty()
    } else {
        let lines = hunks[n - 1].lines;
        hunk_rows(file, hunks, anchors, draft, (n - 1) as nat).push(
            DiffRow::HunkHeader { file, hunk: (n - 1) as u32 },
        ) + line_rows(
            file,
            (n - 1) as u32,
            hunk_lines(hunks.take(n - 1)),
            lines,
            anchors,
            draft,
            lines.len(),
        )
    }
}

/// The rows of an expanded body: its notices, its hunks with the cards under their lines, a pad.
pub open spec fn body(
    file: u32,
    model: FileModel,
    anchors: Seq<Anchor>,
    draft: Option<Anchor>,
) -> Seq<DiffRow> {
    (notice_rows(file, notices_of(model).len()) + hunk_rows(
        file,
        model.hunks,
        anchors,
        draft,
        model.hunks.len(),
    )).push(DiffRow::BodyPad { file })
}

/// Where the comments are pinned.
pub open spec fn anchors_of(comments: Seq<DiffComment>) -> Seq<Anchor> {
    comments.map_values(|c: DiffComment| (c.side, c.line))
}

/// Capacity hint only — comment cards are not counted.
pub fn body_row_count(file: &FileDiff) -> (r: usize)
    requires
        notices_of(file@).len() + file@.hunks.len() + total_lines(file@) + 1 <= usize::MAX,
    ensures
        r == notices_of(file@).len() + file@.hunks.len() + total_lines(file@) + 1,
{
    let lines = count_lines(file);
    let notices = file_notices(file);
    assert(notices@.len() == texts(notices@).len());
    notices.len() + file.hunks.len() + lines + 1
}

fn push_cards(
    rows: &mut Vec<DiffRow>,
    file_ix: u32,
    anchors: &Vec<Anchor>,
    draft: Option<Anchor>,
    anchor: Option<Anchor>,
)
    ensures
        final(rows)@ == old(rows)@ + under_line(file_ix, anchors@, draft, anchor),
{
    if let Some((side, line)) = anchor {
        let ghost before = rows@;
        let ghost a = (side, line);
        for ix in 0..anchors.len()
            invariant
                a == (side, line),
                rows@ == before + card_rows_upto(file_ix, anchors@, a, ix as nat),
        {
            let (s, l) = anchors[ix];
            if s == side && l == line {
                rows.push(DiffRow::CommentCard { file: file_ix, card: ix as u32 });
            }
            assert(rows@ =~= before + card_rows_upto(file_ix, anchors@, a, (ix + 1) as nat));
        }
        if let Some((s, l)) = draft {
            if s == side && l == line {
                rows.push(DiffRow::CommentDraft { file: file_ix });
            }
        }
        assert(rows@ =~= before + under_line(file_ix, anchors@, draft, anchor));
    } else {
        assert(rows@ =~= rows@ + under_line(file_ix, anchors@, draft, anchor));
    }
}

fn body_rows_at(file_ix: u32, file: &FileDiff, anchors: &Vec<Anchor>, draft: Option<Anchor>) -> (r:
    Vec<DiffRow>)
    requires
        total_lines(file@) <= usize::MAX,
    ensures
        r@ == body(file_ix, file@, anchors@, draft),
{
    let mut rows: Vec<DiffRow> = Vec::new();
    let notices = file_notices(file);
    assert(notices@.len() == texts(notices@).len());
    for notice in 0..notices.len()
        invariant
            rows@ =~= notice_rows(file_ix, notice as nat),
    {
        rows.push(DiffRow::Notice { file: file_ix, notice: notice as u32 });
    }
    let ghost head = rows@;
    let ghost hunks = file@.hunks;
    let mut base: usize = 0;
    assert(rows@ =~= head + hunk_rows(file_ix, hunks, anchors@, draft, 0));
    for hunk_ix in 0..file.hunks.len()
        invariant
            hunks == hunk_models(file.hunks@),
            total_lines(file@) <= usize::MAX,
            base == hunk_lines(hunks.take(hunk_ix as int)),
            rows@ == head + hunk_rows(file_ix, hunks, anchors@, draft, hunk_ix as nat),
    {
        rows.push(DiffRow::HunkHeader { file: file_ix, hunk: hunk_ix as u32 });
        let ghost opened = rows@;
        let ghost lines = hunks[hunk_ix as int].lines;
        let count: usize = file.hunks[hunk_ix].lines.len();
        proof {
            crate::patch::lemma_hunk_lines_prefix(hunks, hunk_ix + 1);
            assert(hunks.take(hunk_ix + 1).drop_last() =~= hunks.take(hunk_ix as int));
        }
        assert(base + count <= usize::MAX);
        for line_ix in 0..count
            invariant
                hunk_ix < file.hunks@.len(),
                count == file.hunks@[hunk_ix as int].lines@.len(),
                lines == line_models(file.hunks@[hunk_ix as int].lines@),
                base + count <= usize::MAX,
                rows@ == opened + line_rows(
                    file_ix,
                    hunk_ix as u32,
                    base as nat,
                    lines,
                    anchors@,
                    draft,
                    line_ix as nat,
                ),
        {
            let ghost before = rows@;
            rows.push(
                DiffRow::Line {
                    file: file_ix,
                    hunk: hunk_ix as u32,
                    line: line_ix as u32,
                    flat: (base + line_ix) as u32,
                },
            );
            let anchor = line_anchor(&file.hunks[hunk_ix].lines[line_ix]);
            push_cards(&mut rows, file_ix, anchors, draft, anchor);
            proof {
                let so_far = line_rows(
                    file_ix,
                    hunk_ix as u32,
                    base as nat,
                    lines,
                    anchors@,
                    draft,
                    line_ix as nat,
                );
                let row = DiffRow::Line {
                    file: file_ix,
                    hunk: hunk_ix as u32,
                    line: line_ix as u32,
                    flat: (base + line_ix) as u32,
                };
                let under = under_line(file_ix, anchors@, draft, anchor);
                assert(lines[line_ix as int] == file.hunks@[hunk_ix as int].lines@[line_ix as int]@);
                assert((opened + so_far).push(row) + under =~= opened + (so_far.push(row) + under));
            }
        }
        proof {
            let prev = hunk_rows(file_ix, hunks, anchors@, draft, hunk_ix as nat);
            let row = DiffRow::HunkHeader { file: file_ix, hunk: hunk_ix as u32 };
            let own = line_rows(
                file_ix,
                hunk_ix as u32,
                base as nat,
                lines,
                anchors@,
                draft,
                lines.len(),
            );
            assert((head + prev).push(row) + own =~= head + (prev.push(row) + own));
        }
        base = base + count;
    }
    rows.push(DiffRow::BodyPad { file: file_ix });
    assert(rows@ =~= body(file_ix, file@, anchors@, draft));
    rows
}

fn anchor_list(comments: &[DiffComment]) -> (r: Vec<Anchor>)
    ensures
        r@ == anchors_of(comments@),
{
    let mut r: Vec<Anchor> = Vec::new();
    for i in 0..comments.len()
        invariant
            r@ =~= anchors_of(comments@).take(i as int),
    {
        r.push(comments[i].anchor());
    }
    assert(anchors_of(comments@).take(comments@.len() as int) =~= anchors_of(comments@));
    r
}

pub fn body_rows(
    file_ix: u32,
    file: &FileDiff,
    comments: &[DiffComment],
    draft: Option<(CommentSide, u32)>,
) -> (r: Vec<DiffRow>)
    requires
        total_lines(file@) <= usize::MAX,
    ensures
        r@ == body(file_ix, file@, anchors_of(comments@), draft),
{
    let anchors = anchor_list(comments);
    body_rows_at(file_ix, file, &anchors, draft)
}

// ---------------------------------------------------------------------------
// All files
// ---------------------------------------------------------------------------

/// Where the comments on `path` are pinned, in staged order.
pub open spec fn anchors_in(comments: Seq<DiffComment>, path: Seq<char>) -> Seq<Anchor>
    decreases comments.len(),
{
    if comments.len() == 0 {
        Seq::empty()
    } else {
        let before = anchors_in(comments.drop_last(), path);
        let c = comments.last();
        if c.path@ == path {
            before.push((c.side, c.line))
        } else {
            before
        }
    }
}

/// A draft over the whole diff: the path, side and line it is pinned to.
pub type DraftModel = Option<(Seq<char>, CommentSide, u32)>;

/// Where a draft on `path` is pinned.
pub open spec fn draft_in(draft: DraftModel, path: Seq<char>) -> Option<Anchor> {
    match draft {
        Some((p, side, line)) if p == path => Some((side, line)),
        _ => None,
    }
}

/// A file's rows: its header and, unless it is collapsed, its body.
pub open spec fn section(
    ix: int,
    model: FileModel,
    comments: Seq<DiffComment>,
    draft: DraftModel,
    collapsed: bool,
) -> Seq<DiffRow> {
    let header = seq![DiffRow::FileHeader { file: ix as u32 }];
    if collapsed {
        header
    } else {
        header + body(
            ix as u32,
            model,
            anchors_in(comments, model.path),
            draft_in(draft, model.path),
        )
    }
}

/// The rows of the first `n` files.
pub open spec fn flat_rows(
    files: Seq<FileModel>,
    comments: Seq<DiffComment>,
    draft: DraftModel,
    collapsed: Seq<bool>,
    n: nat,
) -> Seq<DiffRow>
    decreases n,
{
    if n == 0 {
        Seq::empty()
    } else {
        flat_rows(files, comments, draft, collapsed, (n - 1) as nat) + section(
            n - 1,
            files[n - 1],
            comments,
            draft,
            collapsed[n - 1],
        )
    }
}

/// Each file's span ends where the rows of the files up to it end.
pub open spec fn spans_of(
    ranges: Seq<Range<usize>>,
    files: Seq<FileModel>,
    comments: Seq<DiffComment>,
    draft: DraftModel,
    collapsed: Seq<bool>,
) -> bool {
    &&& ranges.len() == files.len()
    &&& forall|i: int|
        0 <= i < ranges.len() ==> {
            &&& (#[trigger] ranges[i]).start == flat_rows(
                files,
                comments,
                draft,
                collapsed,
                i as nat,
            ).len()
            &&& ranges[i].end == flat_rows(
                files,
                comments,
                draft,
                collapsed,
                (i + 1) as nat,
            ).len()
        }
}

/// The view of an optional draft.
pub open spec fn draft_model(draft: Option<(&str, CommentSide, u32)>) -> DraftModel {
    match draft {
        Some((path, side, line)) => Some((path@, side, line)),
        None => None,
    }
}

pub(crate) fn anchors_on(comments: &[DiffComment], path: &str) -> (r: Vec<Anchor>)
    ensures
        r@ == anchors_in(comments@, path@),
{
    let mut r: Vec<Anchor> = Vec::new();
    for i in 0..comments.len()
        invariant
            r@ == anchors_in(comments@.take(i as int), path@),
    {
        assert(comments@.take(i + 1).drop_last() =~= comments@.take(i as int));
        if same_str(comments[i].path.as_str(), path) {
            r.push(comments[i].anchor());
        }
    }
    assert(comments@.take(comments@.len() as int) =~= comments@);
    r
}

/// The rows that one file contributes under its header.
pub(crate) fn file_body(
    ix: usize,
    file: &FileDiff,
    comments: &[DiffComment],
    draft: Option<(&str, CommentSide, u32)>,
) -> (r: Vec<DiffRow>)
    requires
        total_lines(file@) <= usize::MAX,
    ensures
        r@ == body(
            ix as u32,
            file@,
            anchors_in(comments@, file@.path),
            draft_in(draft_model(draft), file@.path),
        ),
{
    let anchors = anchors_on(comments, file.path.as_str());
    let own: Option<Anchor> = match draft {
        Some((path, side, line)) => if same_str(path, file.path.as_str()) {
            Some((side, line))
        } else {
            None
        },
        None => None,
    };
    body_rows_at(ix as u32, file, &anchors, own)
}

/// Flatten all files into rows + each file's row span (header at
/// `range.start`, body rows after it). `collapsed(ix)` folds a file to just
/// its header. `comments` is the whole staged set; each file takes its own
/// path's slice.
#[verifier::rlimit(60)]
pub fn flatten_rows(
    files: &[FileDiff],
    comments: &[DiffComment],
    draft: Option<(&str, CommentSide, u32)>,
    collapsed: impl Fn(usize) -> bool,
) -> (r: (Vec<DiffRow>, Vec<Range<usize>>))
    requires
        forall|i: int| 0 <= i < files@.len() ==> total_lines(#[trigger] files@[i]@) <= usize::MAX,
        forall|i: usize| i < files@.len() ==> call_requires(collapsed, (i,)),
    ensures
        exists|flags: Seq<bool>|
            {
                &&& flags.len() == files@.len()
                &&& forall|i: int|
                    0 <= i < flags.len() ==> call_ensures(
                        collapsed,
                        (i as usize,),
                        #[trigger] flags[i],
                    )
                &&& r.0@ == #[trigger] flat_rows(
                    file_models(files@),
                    comments@,
                    draft_model(draft),
                    flags,
                    files@.len(),
                )
                &&& spans_of(r.1@, file_models(files@), comments@, draft_model(draft), flags)
            },
{
    let mut rows: Vec<DiffRow> = Vec::new();
    let mut ranges: Vec<Range<usize>> = Vec::new();
    let ghost mut flags: Seq<bool> = Seq::empty();
    let ghost models = file_models(files@);
    let ghost shown = draft_model(draft);
    for ix in 0..files.len()
        invariant
            models == file_models(files@),
            shown == draft_model(draft),
            forall|i: int| 0 <= i < files@.len() ==> total_lines(#[trigger] files@[i]@) <= usize::MAX,
            forall|i: usize| i < files@.len() ==> call_requires(collapsed, (i,)),
            flags.len() == ix,
            forall|i: int|
                0 <= i < ix ==> call_ensures(collapsed, (i as usize,), #[trigger] flags[i]),
            rows@ == flat_rows(models, comments@, shown, flags, ix as nat),
            ranges@.len() == ix,
            forall|i: int|
                0 <= i < ix ==> {
                    &&& (#[trigger] ranges@[i]).start == flat_rows(
                        models,
                        comments@,
                        shown,
                        flags,
                        i as nat,
                    ).len()
                    &&& ranges@[i].end == flat_rows(
                        models,
                        comments@,
                        shown,
                        flags,
                        (i + 1) as nat,
                    ).len()
                },
    {
        let start: usize = rows.len();
        let ghost before = rows@;
        let ghost old_flags = flags;
        rows.push(DiffRow::FileHeader { file: ix as u32 });
        let folded = collapsed(ix);
        proof {
            flags = flags.push(folded);
            lemma_flat_flags(models, comments@, shown, old_flags, flags, ix as nat);
            assert forall|i: int| 0 <= i <= ix implies flat_rows(
                models,
                comments@,
                shown,
                old_flags,
                #[trigger] (i as nat),
            ) == flat_rows(models, comments@, shown, flags, i as nat) by {
                lemma_flat_flags(models, comments@, shown, old_flags, flags, i as nat);
            }
        }
        if !folded {
            let mut own = file_body(ix, &files[ix], comments, draft);
            rows.append(&mut own);
        }
        proof {
            assert(rows@ =~= before + section(
                ix as int,
                models[ix as int],
                comments@,
                shown,
                folded,
            ));
            assert(rows@ == flat_rows(models, comments@, shown, flags, (ix + 1) as nat));
        }
        let ghost old_ranges = ranges@;
        ranges.push(start..rows.len());
        assert forall|i: int| 0 <= i < ix + 1 implies {
            &&& (#[trigger] ranges@[i]).start == flat_rows(
                models,
                comments@,
                shown,
                flags,
                i as nat,
            ).len()
            &&& ranges@[i].end == flat_rows(
                models,
                comments@,
                shown,
                flags,
                (i + 1) as nat,
            ).len()
        } by {
            if i < ix {
                assert(ranges@[i] == old_ranges[i]);
                lemma_flat_flags(models, comments@, shown, old_flags, flags, i as nat);
                lemma_flat_flags(models, comments@, shown, old_flags, flags, (i + 1) as nat);
            }
        }
    }
    (rows, ranges)
}

/// The rows of the first `n` files do not depend on later flags.
proof fn lemma_flat_flags(
    files: Seq<FileModel>,
    comments: Seq<DiffComment>,
    draft: DraftModel,
    a: Seq<bool>,
    b: Seq<bool>,
    n: nat,
)
    requires
        n <= a.len(),
        n <= b.len(),
        forall|i: int| 0 <= i < n ==> a[i] == b[i],
    ensures
        flat_rows(files, comments, draft, a, n) == flat_rows(files, comments, draft, b, n),
    decreases n,
{
    if n > 0 {
        lemma_flat_flags(files, comments, draft, a, b, (n - 1) as nat);
    }
}

// ---------------------------------------------------------------------------
// What every row model satisfies
// ---------------------------------------------------------------------------

/// Spans that follow each other without a gap from the first row to the last, none of them empty.
pub open spec fn tiled(ranges: Seq<Range<usize>>, total: int) -> bool {
    &&& ranges.len() == 0 ==> total == 0
    &&& ranges.len() > 0 ==> ranges[0].start == 0 && ranges.last().end == total
    &&& forall|i: int| 0 <= i < ranges.len() ==> (#[trigger] ranges[i]).start < ranges[i].end
    &&& forall|i: int, j: int|
        0 <= i && j == i + 1 && j < ranges.len() ==> (#[trigger] ranges[i]).end == (
        #[trigger] ranges[j]).start
}

spec fn all_in(rows: Seq<DiffRow>, file: u32) -> bool {
    forall|i: int| 0 <= i < rows.len() ==> file_of(#[trigger] rows[i]) == file
}

proof fn lemma_under_line(
    file: u32,
    anchors: Seq<Anchor>,
    draft: Option<Anchor>,
    anchor: Anchor,
    n: nat,
)
    requires
        n <= anchors.len(),
    ensures
        all_in(card_rows_upto(file, anchors, anchor, n), file),
        n == anchors.len() ==> all_in(under_line(file, anchors, draft, Some(anchor)), file),
        anchors.len() == 0 && draft is None ==> under_line(file, anchors, draft, Some(anchor)).len()
            == 0,
    decreases n,
{
    if n > 0 {
        lemma_under_line(file, anchors, draft, anchor, (n - 1) as nat);
    }
}

proof fn lemma_line_rows(
    file: u32,
    hunk: u32,
    base: nat,
    lines: Seq<LineModel>,
    anchors: Seq<Anchor>,
    draft: Option<Anchor>,
    n: nat,
)
    requires
        n <= lines.len(),
    ensures
        all_in(line_rows(file, hunk, base, lines, anchors, draft, n), file),
        anchors.len() == 0 && draft is None ==> line_rows(
            file,
            hunk,
            base,
            lines,
            anchors,
            draft,
            n,
        ).len() == n,
    decreases n,
{
    if n > 0 {
        lemma_line_rows(file, hunk, base, lines, anchors, draft, (n - 1) as nat);
        if let Some(a) = anchor_of(lines[n - 1]) {
            lemma_under_line(file, anchors, draft, a, anchors.len());
        }
    }
}

proof fn lemma_hunk_rows(
    file: u32,
    hunks: Seq<HunkModel>,
    anchors: Seq<Anchor>,
    draft: Option<Anchor>,
    n: nat,
)
    requires
        n <= hunks.len(),
    ensures
        all_in(hunk_rows(file, hunks, anchors, draft, n), file),
        anchors.len() == 0 && draft is None ==> hunk_rows(file, hunks, anchors, draft, n).len() == n
            + hunk_lines(hunks.take(n as int)),
    decreases n,
{
    if n > 0 {
        lemma_hunk_rows(file, hunks, anchors, draft, (n - 1) as nat);
        let lines = hunks[n - 1].lines;
        lemma_line_rows(
            file,
            (n - 1) as u32,
            hunk_lines(hunks.take(n - 1)),
            lines,
            anchors,
            draft,
            lines.len(),
        );
        assert(hunks.take(n as int).drop_last() =~= hunks.take(n - 1));
    }
}

proof fn lemma_body(file: u32, model: FileModel, anchors: Seq<Anchor>, draft: Option<Anchor>)
    ensures
        all_in(body(file, model, anchors, draft), file),
{
    lemma_hunk_rows(file, model.hunks, anchors, draft, model.hunks.len());
}

/// A body without comments or a draft has one row per notice, hunk and line, and a pad: what
/// [`body_row_count`] counts.
pub proof fn law_row_count_without_comments(file: u32, model: FileModel)
    ensures
        body(file, model, Seq::empty(), None).len() == notices_of(model).len() + model.hunks.len()
            + total_lines(model) + 1,
{
    lemma_hunk_rows(file, model.hunks, Seq::empty(), None, model.hunks.len());
    assert(model.hunks.take(model.hunks.len() as int) =~= model.hunks);
}

proof fn lemma_flat_prefix(
    files: Seq<FileModel>,
    comments: Seq<DiffComment>,
    draft: DraftModel,
    collapsed: Seq<bool>,
    m: nat,
    n: nat,
)
    requires
        m <= n,
    ensures
        ({
            let a = flat_rows(files, comments, draft, collapsed, m);
            let b = flat_rows(files, comments, draft, collapsed, n);
            a.len() <= b.len() && b.take(a.len() as int) == a
        }),
    decreases n,
{
    let a = flat_rows(files, comments, draft, collapsed, m);
    let b = flat_rows(files, comments, draft, collapsed, n);
    if m == n {
        assert(b.take(a.len() as int) =~= a);
    } else {
        lemma_flat_prefix(files, comments, draft, collapsed, m, (n - 1) as nat);
        let c = flat_rows(files, comments, draft, collapsed, (n - 1) as nat);
        assert(b.take(a.len() as int) =~= c.take(a.len() as int));
    }
}

/// The spans tile the rows; each begins with its own file's header, holds exactly that file's
/// section, and rows of no other file; a collapsed file has its header and nothing else.
pub proof fn law_spans_tile_the_rows(
    files: Seq<FileModel>,
    comments: Seq<DiffComment>,
    draft: DraftModel,
    collapsed: Seq<bool>,
    ranges: Seq<Range<usize>>,
)
    requires
        spans_of(ranges, files, comments, draft, collapsed),
    ensures
        ({
            let rows = flat_rows(files, comments, draft, collapsed, files.len());
            &&& tiled(ranges, rows.len() as int)
            &&& forall|i: int|
                0 <= i < ranges.len() ==> {
                    &&& rows[(#[trigger] ranges[i]).start as int] == DiffRow::FileHeader {
                        file: i as u32,
                    }
                    &&& collapsed[i] ==> ranges[i].end == ranges[i].start + 1
                    &&& rows.subrange(ranges[i].start as int, ranges[i].end as int) == section(
                        i,
                        files[i],
                        comments,
                        draft,
                        collapsed[i],
                    )
                }
            &&& forall|i: int, r: int|
                0 <= i < ranges.len() && ranges[i].start <= r < ranges[i].end ==> file_of(
                    #[trigger] rows[r],
                ) == #[trigger] (i as u32)
        }),
{
    let rows = flat_rows(files, comments, draft, collapsed, files.len());
    assert forall|i: int| 0 <= i < ranges.len() implies {
        &&& (#[trigger] ranges[i]).start < ranges[i].end <= rows.len()
        &&& rows.subrange(ranges[i].start as int, ranges[i].end as int) == section(
            i,
            files[i],
            comments,
            draft,
            collapsed[i],
        )
    } by {
        let before = flat_rows(files, comments, draft, collapsed, i as nat);
        let after = flat_rows(files, comments, draft, collapsed, (i + 1) as nat);
        lemma_flat_prefix(files, comments, draft, collapsed, (i + 1) as nat, files.len());
        assert(rows.subrange(ranges[i].start as int, ranges[i].end as int) =~= section(
            i,
            files[i],
            comments,
            draft,
            collapsed[i],
        )) by {
            assert(rows.take(after.len() as int) == after);
            assert(rows.subrange(ranges[i].start as int, ranges[i].end as int) =~= after.skip(
                before.len() as int,
            ));
        }
    }
    assert forall|i: int| 0 <= i < ranges.len() implies {
        &&& rows[(#[trigger] ranges[i]).start as int] == DiffRow::FileHeader { file: i as u32 }
        &&& collapsed[i] ==> ranges[i].end == ranges[i].start + 1
        &&& rows.subrange(ranges[i].start as int, ranges[i].end as int) == section(
            i,
            files[i],
            comments,
            draft,
            collapsed[i],
        )
    } by {
        let own = rows.subrange(ranges[i].start as int, ranges[i].end as int);
        assert(own[0] == rows[ranges[i].start as int]);
    }
    assert forall|i: int, r: int|
        0 <= i < ranges.len() && ranges[i].start <= r < ranges[i].end implies file_of(
        #[trigger] rows[r],
    ) == #[trigger] (i as u32) by {
        let own = rows.subrange(ranges[i].start as int, ranges[i].end as int);
        assert(own[r - ranges[i].start] == rows[r]);
        lemma_body(
            i as u32,
            files[i],
            anchors_in(comments, files[i].path),
            draft_in(draft, files[i].path),
        );
    }
}

} // verus!
