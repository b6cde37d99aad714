//! Where the rows of a file's body stand: every line has its row, and every card and draft hangs on
//! the line that it is pinned to.

use vstd::prelude::*;

use crate::comments::DiffComment;
use crate::patch::{
    anchor_of, hunk_lines, lemma_hunk_lines_prefix, notices_of, FileModel, HunkModel, LineModel,
};
use crate::rows::{
    anchors_in, body, card_rows_upto, hunk_rows, line_rows, notice_rows, under_line, Anchor, DiffRow,
};

verus! {

/// The row that the row at `r` hangs on: the nearest one, going up from it, that is neither a card
/// nor a draft.
pub open spec fn hangs_on(rows: Seq<DiffRow>, r: int) -> int
    decreases r + 1,
{
    if r < 0 || r >= rows.len() {
        -1
    } else if rows[r] is CommentCard || rows[r] is CommentDraft {
        hangs_on(rows, r - 1)
    } else {
        r
    }
}

proof fn lemma_hangs_on(rows: Seq<DiffRow>, r: int)
    ensures
        -1 <= hangs_on(rows, r) <= r || r < 0,
        hangs_on(rows, r) < rows.len(),
    decreases r + 1,
{
    if 0 <= r < rows.len() {
        lemma_hangs_on(rows, r - 1);
    }
}

proof fn lemma_hangs_on_prefix(a: Seq<DiffRow>, b: Seq<DiffRow>, r: int)
    requires
        r < a.len(),
    ensures
        hangs_on(a + b, r) == hangs_on(a, r),
    decreases r + 1,
{
    if 0 <= r {
        assert((a + b)[r] == a[r]);
        lemma_hangs_on_prefix(a, b, r - 1);
    }
}

/// Whether the row at `r`, if it is a card or a draft, hangs on the line that it is pinned to.
pub open spec fn well_pinned(
    rows: Seq<DiffRow>,
    r: int,
    hunks: Seq<HunkModel>,
    anchors: Seq<Anchor>,
    draft: Option<Anchor>,
) -> bool {
    let line = rows[hangs_on(rows, r)];
    match rows[r] {
        DiffRow::CommentCard { card, .. } => {
            &&& 0 <= hangs_on(rows, r)
            &&& card < anchors.len()
            &&& line matches DiffRow::Line { hunk, line, .. } && anchor_of(
                hunks[hunk as int].lines[line as int],
            ) == Some(anchors[card as int])
        },
        DiffRow::CommentDraft { .. } => {
            &&& 0 <= hangs_on(rows, r)
            &&& draft is Some
            &&& line matches DiffRow::Line { hunk, line, .. } && anchor_of(
                hunks[hunk as int].lines[line as int],
            ) == draft
        },
        _ => true,
    }
}

/// The rows under a line are cards that are pinned to it, and then the draft where it is.
proof fn lemma_under_content(
    file: u32,
    anchors: Seq<Anchor>,
    anchor: Anchor,
    n: nat,
)
    requires
        n <= anchors.len() <= u32::MAX,
    ensures
        ({
            let cards = card_rows_upto(file, anchors, anchor, n);
            &&& forall|r: int|
                0 <= r < cards.len() ==> match #[trigger] cards[r] {
                    DiffRow::CommentCard { card, .. } => card < n && anchors[card as int] == anchor,
                    _ => false,
                }
            &&& forall|c: int|
                0 <= c < n && #[trigger] anchors[c] == anchor ==> cards.contains(
                    DiffRow::CommentCard { file, card: c as u32 },
                )
        }),
    decreases n,
{
    if n > 0 {
        lemma_under_content(file, anchors, anchor, (n - 1) as nat);
        let before = card_rows_upto(file, anchors, anchor, (n - 1) as nat);
        let cards = card_rows_upto(file, anchors, anchor, n);
        assert forall|c: int| 0 <= c < n && #[trigger] anchors[c] == anchor implies cards.contains(
            DiffRow::CommentCard { file, card: c as u32 },
        ) by {
            let row = DiffRow::CommentCard { file, card: c as u32 };
            if c < n - 1 {
                let r = choose|r: int| 0 <= r < before.len() && before[r] == row;
                assert(cards[r] == row);
            } else {
                assert(cards[before.len() as int] == row);
            }
        }
    }
}

/// Rows that hang on the line right before them hang on it.
proof fn lemma_hang_together(rows: Seq<DiffRow>, q: int, r: int)
    requires
        0 <= q <= r < rows.len(),
        !(rows[q] is CommentCard || rows[q] is CommentDraft),
        forall|k: int|
            q < k <= r ==> (#[trigger] rows[k]) is CommentCard || rows[k] is CommentDraft,
    ensures
        hangs_on(rows, r) == q,
    decreases r - q,
{
    if q < r {
        lemma_hang_together(rows, q, r - 1);
    }
}

spec fn all_pinned(
    rows: Seq<DiffRow>,
    hunks: Seq<HunkModel>,
    anchors: Seq<Anchor>,
    draft: Option<Anchor>,
) -> bool {
    forall|r: int|
        0 <= r < rows.len() ==> #[trigger] well_pinned(rows, r, hunks, anchors, draft)
}

/// Appending a run of rows that keeps what hangs on what.
proof fn lemma_pinned_append(
    a: Seq<DiffRow>,
    b: Seq<DiffRow>,
    hunks: Seq<HunkModel>,
    anchors: Seq<Anchor>,
    draft: Option<Anchor>,
    r: int,
)
    requires
        0 <= r < a.len(),
        well_pinned(a, r, hunks, anchors, draft),
    ensures
        well_pinned(a + b, r, hunks, anchors, draft),
{
    lemma_hangs_on(a, r);
    lemma_hangs_on_prefix(a, b, r);
    assert((a + b)[r] == a[r]);
    if hangs_on(a, r) >= 0 {
        assert((a + b)[hangs_on(a, r)] == a[hangs_on(a, r)]);
    }
}

/// One line's row with what stands under it.
#[verifier::rlimit(50)]
proof fn lemma_pinned_line(
    rows: Seq<DiffRow>,
    file: u32,
    h: int,
    l: int,
    flat: u32,
    hunks: Seq<HunkModel>,
    anchors: Seq<Anchor>,
    draft: Option<Anchor>,
)
    requires
        0 <= h < hunks.len() <= u32::MAX,
        0 <= l < hunks[h].lines.len() <= u32::MAX,
        anchors.len() <= u32::MAX,
        all_pinned(rows, hunks, anchors, draft),
    ensures
        ({
            let row = DiffRow::Line { file, hunk: h as u32, line: l as u32, flat };
            let anchor = anchor_of(hunks[h].lines[l]);
            let grown = rows.push(row) + under_line(file, anchors, draft, anchor);
            &&& all_pinned(grown, hunks, anchors, draft)
            &&& grown.len() > rows.len() && grown[rows.len() as int] == row
            &&& forall|c: int|
                0 <= c < anchors.len() && anchor == Some(#[trigger] anchors[c]) ==> exists|r: int|
                    0 <= r < grown.len() && #[trigger] grown[r] == (DiffRow::CommentCard {
                        file,
                        card: c as u32,
                    }) && hangs_on(grown, r) == rows.len()
            &&& draft is Some && anchor == draft ==> grown.last() == (DiffRow::CommentDraft {
                file,
            }) && hangs_on(grown, grown.len() - 1) == rows.len()
        }),
{
    let row = DiffRow::Line { file, hunk: h as u32, line: l as u32, flat };
    let anchor = anchor_of(hunks[h].lines[l]);
    let under = under_line(file, anchors, draft, anchor);
    let grown = rows.push(row) + under;
    let q = rows.len() as int;
    assert(grown =~= rows + (seq![row] + under));
    if let Some(a) = anchor {
        lemma_under_content(file, anchors, a, anchors.len());
    }
    assert forall|k: int| q < k < grown.len() implies (#[trigger] grown[k]) is CommentCard
        || grown[k] is CommentDraft by {
        assert(grown[k] == under[k - q - 1]);
    }
    assert(grown[q] == row);
    assert forall|r: int| 0 <= r < grown.len() implies #[trigger] well_pinned(
        grown,
        r,
        hunks,
        anchors,
        draft,
    ) by {
        if r < q {
            assert(well_pinned(rows, r, hunks, anchors, draft));
            lemma_pinned_append(rows, seq![row] + under, hunks, anchors, draft, r);
        } else {
            lemma_hang_together(grown, q, r);
            if r > q {
                assert(grown[r] == under[r - q - 1]);
            }
        }
    }
    assert forall|c: int| 0 <= c < anchors.len() && anchor == Some(#[trigger] anchors[c]) implies exists|
        r: int,
    |
        0 <= r < grown.len() && #[trigger] grown[r] == (DiffRow::CommentCard { file, card: c as u32 })
            && hangs_on(grown, r) == q by {
        let card = DiffRow::CommentCard { file, card: c as u32 };
        let cards = card_rows_upto(file, anchors, anchor->0, anchors.len());
        let k = choose|k: int| 0 <= k < cards.len() && cards[k] == card;
        assert(under[k] == card);
        assert(grown[q + 1 + k] == card);
        lemma_hang_together(grown, q, q + 1 + k);
    }
    if draft is Some && anchor == draft {
        assert(grown.last() == under.last());
        lemma_hang_together(grown, q, grown.len() - 1);
    }
}

/// The row at `q` is the line's, and its cards and its draft hang on it.
pub open spec fn has_its_rows(
    rows: Seq<DiffRow>,
    file: u32,
    h: int,
    l: int,
    hunks: Seq<HunkModel>,
    anchors: Seq<Anchor>,
    draft: Option<Anchor>,
    q: int,
) -> bool {
    let anchor = anchor_of(hunks[h].lines[l]);
    &&& 0 <= q < rows.len()
    &&& rows[q] == (DiffRow::Line {
        file,
        hunk: h as u32,
        line: l as u32,
        flat: (hunk_lines(hunks.take(h)) + l) as u32,
    })
    &&& forall|c: int|
        0 <= c < anchors.len() && anchor == Some(#[trigger] anchors[c]) ==> exists|r: int|
            0 <= r < rows.len() && #[trigger] rows[r] == (DiffRow::CommentCard {
                file,
                card: c as u32,
            }) && hangs_on(rows, r) == q
    &&& draft is Some && anchor == draft ==> exists|r: int|
        0 <= r < rows.len() && #[trigger] rows[r] == (DiffRow::CommentDraft { file }) && hangs_on(
            rows,
            r,
        ) == q
}

/// The line has its row, with its cards and its draft hanging on it.
pub open spec fn is_drawn(
    rows: Seq<DiffRow>,
    file: u32,
    h: int,
    l: int,
    hunks: Seq<HunkModel>,
    anchors: Seq<Anchor>,
    draft: Option<Anchor>,
) -> bool {
    exists|q: int| #[trigger] has_its_rows(rows, file, h, l, hunks, anchors, draft, q)
}

proof fn lemma_rows_stay(
    a: Seq<DiffRow>,
    b: Seq<DiffRow>,
    file: u32,
    h: int,
    l: int,
    hunks: Seq<HunkModel>,
    anchors: Seq<Anchor>,
    draft: Option<Anchor>,
    q: int,
)
    requires
        has_its_rows(a, file, h, l, hunks, anchors, draft, q),
    ensures
        has_its_rows(a + b, file, h, l, hunks, anchors, draft, q),
{
    let all = a + b;
    let anchor = anchor_of(hunks[h].lines[l]);
    assert forall|c: int| 0 <= c < anchors.len() && anchor == Some(#[trigger] anchors[c]) implies exists|
        r: int,
    |
        0 <= r < all.len() && #[trigger] all[r] == (DiffRow::CommentCard { file, card: c as u32 })
            && hangs_on(all, r) == q by {
        let r = choose|r: int|
            0 <= r < a.len() && #[trigger] a[r] == (DiffRow::CommentCard { file, card: c as u32 })
                && hangs_on(a, r) == q;
        lemma_hangs_on_prefix(a, b, r);
        assert(all[r] == a[r]);
    }
    if draft is Some && anchor == draft {
        let r = choose|r: int|
            0 <= r < a.len() && #[trigger] a[r] == (DiffRow::CommentDraft { file }) && hangs_on(a, r)
                == q;
        lemma_hangs_on_prefix(a, b, r);
        assert(all[r] == a[r]);
    }
}

spec fn small(hunks: Seq<HunkModel>, anchors: Seq<Anchor>) -> bool {
    &&& hunks.len() <= u32::MAX
    &&& forall|h: int| 0 <= h < hunks.len() ==> (#[trigger] hunks[h]).lines.len() <= u32::MAX
    &&& anchors.len() <= u32::MAX
}

#[verifier::rlimit(50)]
proof fn lemma_pinned_lines(
    rows: Seq<DiffRow>,
    file: u32,
    h: int,
    hunks: Seq<HunkModel>,
    anchors: Seq<Anchor>,
    draft: Option<Anchor>,
    n: nat,
)
    requires
        0 <= h < hunks.len(),
        small(hunks, anchors),
        n <= hunks[h].lines.len(),
        all_pinned(rows, hunks, anchors, draft),
    ensures
        ({
            let base = hunk_lines(hunks.take(h));
            let own = line_rows(file, h as u32, base, hunks[h].lines, anchors, draft, n);
            &&& all_pinned(rows + own, hunks, anchors, draft)
            &&& forall|l: int|
                0 <= l < n ==> #[trigger] is_drawn(
                    rows + own,
                    file,
                    h,
                    l,
                    hunks,
                    anchors,
                    draft,
                )
        }),
    decreases n,
{
    let base = hunk_lines(hunks.take(h));
    let lines = hunks[h].lines;
    let own = line_rows(file, h as u32, base, lines, anchors, draft, n);
    if n == 0 {
        assert(rows + own =~= rows);
    } else {
        let l = n - 1;
        let before = line_rows(file, h as u32, base, lines, anchors, draft, l as nat);
        lemma_pinned_lines(rows, file, h, hunks, anchors, draft, l as nat);
        let row = DiffRow::Line { file, hunk: h as u32, line: l as u32, flat: (base + l) as u32 };
        let under = under_line(file, anchors, draft, anchor_of(lines[l]));
        lemma_pinned_line(
            rows + before,
            file,
            h,
            l,
            (base + l) as u32,
            hunks,
            anchors,
            draft,
        );
        assert(rows + own =~= (rows + before).push(row) + under);
        assert forall|m: int| 0 <= m < n implies #[trigger] is_drawn(
            rows + own,
            file,
            h,
            m,
            hunks,
            anchors,
            draft,
        ) by {
            if m < l {
                assert(is_drawn(rows + before, file, h, m, hunks, anchors, draft));
                let q = choose|q: int| #[trigger]
                    has_its_rows(rows + before, file, h, m, hunks, anchors, draft, q);
                lemma_rows_stay(
                    rows + before,
                    seq![row] + under,
                    file,
                    h,
                    m,
                    hunks,
                    anchors,
                    draft,
                    q,
                );
                assert((rows + before) + (seq![row] + under) =~= rows + own);
            } else {
                let q = (rows + before).len() as int;
                let all = rows + own;
                if draft is Some && anchor_of(lines[l]) == draft {
                    assert(all[all.len() - 1] == all.last());
                }
                assert(has_its_rows(all, file, h, m, hunks, anchors, draft, q));
            }
        }
    }
}

proof fn lemma_pinned_plain(
    rows: Seq<DiffRow>,
    row: DiffRow,
    hunks: Seq<HunkModel>,
    anchors: Seq<Anchor>,
    draft: Option<Anchor>,
)
    requires
        all_pinned(rows, hunks, anchors, draft),
        !(row is CommentCard || row is CommentDraft),
    ensures
        all_pinned(rows.push(row), hunks, anchors, draft),
{
    assert(rows.push(row) =~= rows + seq![row]);
    assert forall|r: int| 0 <= r < rows.push(row).len() implies #[trigger] well_pinned(
        rows.push(row),
        r,
        hunks,
        anchors,
        draft,
    ) by {
        if r < rows.len() {
            assert(well_pinned(rows, r, hunks, anchors, draft));
            lemma_pinned_append(rows, seq![row], hunks, anchors, draft, r);
        }
    }
}

#[verifier::rlimit(50)]
proof fn lemma_pinned_hunks(
    rows: Seq<DiffRow>,
    file: u32,
    hunks: Seq<HunkModel>,
    anchors: Seq<Anchor>,
    draft: Option<Anchor>,
    n: nat,
)
    requires
        small(hunks, anchors),
        n <= hunks.len(),
        all_pinned(rows, hunks, anchors, draft),
    ensures
        ({
            let own = hunk_rows(file, hunks, anchors, draft, n);
            &&& all_pinned(rows + own, hunks, anchors, draft)
            &&& forall|h: int, l: int|
                0 <= h < n && 0 <= l < hunks[h].lines.len() ==> #[trigger] is_drawn(
                    rows + own,
                    file,
                    h,
                    l,
                    hunks,
                    anchors,
                    draft,
                )
        }),
    decreases n,
{
    let own = hunk_rows(file, hunks, anchors, draft, n);
    if n == 0 {
        assert(rows + own =~= rows);
    } else {
        let h = n - 1;
        let before = hunk_rows(file, hunks, anchors, draft, h as nat);
        let header = DiffRow::HunkHeader { file, hunk: h as u32 };
        let lines = hunks[h].lines;
        let last = line_rows(
            file,
            h as u32,
            hunk_lines(hunks.take(h)),
            lines,
            anchors,
            draft,
            lines.len(),
        );
        lemma_pinned_hunks(rows, file, hunks, anchors, draft, h as nat);
        lemma_pinned_plain(rows + before, header, hunks, anchors, draft);
        let opened = (rows + before).push(header);
        lemma_pinned_lines(opened, file, h, hunks, anchors, draft, lines.len());
        assert(rows + own =~= opened + last);
        assert forall|g: int, l: int|
            0 <= g < n && 0 <= l < hunks[g].lines.len() implies #[trigger] is_drawn(
            rows + own,
            file,
            g,
            l,
            hunks,
            anchors,
            draft,
        ) by {
            if g < h {
                assert(is_drawn(rows + before, file, g, l, hunks, anchors, draft));
                let q = choose|q: int| #[trigger]
                    has_its_rows(rows + before, file, g, l, hunks, anchors, draft, q);
                lemma_rows_stay(
                    rows + before,
                    seq![header] + last,
                    file,
                    g,
                    l,
                    hunks,
                    anchors,
                    draft,
                    q,
                );
                assert((rows + before) + (seq![header] + last) =~= rows + own);
            }
        }
    }
}

proof fn lemma_pinned_body(
    file: u32,
    model: FileModel,
    anchors: Seq<Anchor>,
    draft: Option<Anchor>,
)
    requires
        small(model.hunks, anchors),
    ensures
        all_pinned(body(file, model, anchors, draft), model.hunks, anchors, draft),
        forall|h: int, l: int|
            0 <= h < model.hunks.len() && 0 <= l < model.hunks[h].lines.len() ==> #[trigger] is_drawn(
                body(file, model, anchors, draft),
                file,
                h,
                l,
                model.hunks,
                anchors,
                draft,
            ),
{
    let notices = notice_rows(file, notices_of(model).len());
    let hunks = model.hunks;
    let own = hunk_rows(file, hunks, anchors, draft, hunks.len());
    let rows = body(file, model, anchors, draft);
    let pad = DiffRow::BodyPad { file };
    assert forall|r: int| 0 <= r < notices.len() implies #[trigger] well_pinned(
        notices,
        r,
        hunks,
        anchors,
        draft,
    ) by {
        assert(notices[r] is Notice);
    }
    lemma_pinned_hunks(notices, file, hunks, anchors, draft, hunks.len());
    lemma_pinned_plain(notices + own, pad, hunks, anchors, draft);
    assert forall|h: int, l: int| 0 <= h < hunks.len() && 0 <= l < hunks[h].lines.len() implies #[trigger] is_drawn(
        rows,
        file,
        h,
        l,
        hunks,
        anchors,
        draft,
    ) by {
        assert(is_drawn(notices + own, file, h, l, hunks, anchors, draft));
        let q = choose|q: int| #[trigger]
            has_its_rows(notices + own, file, h, l, hunks, anchors, draft, q);
        lemma_rows_stay(notices + own, seq![pad], file, h, l, hunks, anchors, draft, q);
        assert((notices + own) + seq![pad] =~= rows);
    }
}

/// A card stands under the line that its comment is pinned to, and the draft under its own: going
/// up from either, past other cards, one comes to that line's row.
pub proof fn law_cards_stand_under_their_lines(
    file: u32,
    model: FileModel,
    anchors: Seq<Anchor>,
    draft: Option<Anchor>,
    r: int,
)
    requires
        model.hunks.len() <= u32::MAX,
        forall|h: int|
            0 <= h < model.hunks.len() ==> (#[trigger] model.hunks[h]).lines.len() <= u32::MAX,
        anchors.len() <= u32::MAX,
        0 <= r < body(file, model, anchors, draft).len(),
    ensures
        well_pinned(body(file, model, anchors, draft), r, model.hunks, anchors, draft),
{
    lemma_pinned_body(file, model, anchors, draft);
}

/// No line and no comment is left out: every line of every hunk has its row, and every comment and
/// draft that is pinned to it stands under it.
pub proof fn law_every_line_has_its_rows(
    file: u32,
    model: FileModel,
    anchors: Seq<Anchor>,
    draft: Option<Anchor>,
    h: int,
    l: int,
)
    requires
        model.hunks.len() <= u32::MAX,
        forall|h: int|
            0 <= h < model.hunks.len() ==> (#[trigger] model.hunks[h]).lines.len() <= u32::MAX,
        anchors.len() <= u32::MAX,
        0 <= h < model.hunks.len(),
        0 <= l < model.hunks[h].lines.len(),
    ensures
        is_drawn(
            body(file, model, anchors, draft),
            file,
            h,
            l,
            model.hunks,
            anchors,
            draft,
        ),
{
    lemma_pinned_body(file, model, anchors, draft);
}

/// A file's cards are those of the comments on its path, one each and in staged order: a comment on
/// the path is pinned as it says, behind those staged before it on the same path.
pub proof fn law_a_file_has_its_own_comments(comments: Seq<DiffComment>, path: Seq<char>, k: int)
    requires
        0 <= k < comments.len(),
    ensures
        ({
            let c = anchors_in(comments.take(k), path).len() as int;
            if comments[k].path@ == path {
                &&& c < anchors_in(comments, path).len()
                &&& anchors_in(comments, path)[c] == (comments[k].side, comments[k].line)
                &&& anchors_in(comments.take(k + 1), path).len() == c + 1
            } else {
                anchors_in(comments.take(k + 1), path).len() == c
            }
        }),
    decreases comments.len(),
{
    assert(comments.take(k + 1).drop_last() =~= comments.take(k));
    let front = comments.drop_last();
    if k < front.len() {
        assert(front[k] == comments[k]);
        assert(front.take(k) =~= comments.take(k));
        law_a_file_has_its_own_comments(front, path, k);
    } else {
        assert(comments.take(k) =~= front);
    }
}

// ---------------------------------------------------------------------------
// The order of the rows
// ---------------------------------------------------------------------------

/// The row is a card or a draft.
pub open spec fn hangs(row: DiffRow) -> bool {
    row is CommentCard || row is CommentDraft
}

/// Of two rows the upper one comes first by right: lines go by their place in the file, and what
/// hangs on one line by the order in which it was staged, the draft last.
pub open spec fn in_order(rows: Seq<DiffRow>, r: int, u: int) -> bool {
    match (rows[r], rows[u]) {
        (DiffRow::Line { flat: a, .. }, DiffRow::Line { flat: b, .. }) => a < b,
        (DiffRow::CommentCard { card: a, .. }, DiffRow::CommentCard { card: b, .. }) => hangs_on(
            rows,
            r,
        ) == hangs_on(rows, u) ==> a < b,
        (DiffRow::CommentDraft { .. }, row) => hangs(row) ==> hangs_on(rows, r) != hangs_on(rows, u),
        _ => true,
    }
}

/// The rows are in order, and no line stands at or behind `bound`.
spec fn all_in_order(rows: Seq<DiffRow>, bound: int) -> bool {
    &&& forall|r: int, u: int| 0 <= r < u < rows.len() ==> #[trigger] in_order(rows, r, u)
    &&& forall|r: int|
        0 <= r < rows.len() ==> match #[trigger] rows[r] {
            DiffRow::Line { flat, .. } => flat < bound,
            _ => true,
        }
}

proof fn lemma_cards_ascend(file: u32, anchors: Seq<Anchor>, anchor: Anchor, n: nat)
    requires
        n <= anchors.len() <= u32::MAX,
    ensures
        ({
            let cards = card_rows_upto(file, anchors, anchor, n);
            forall|r: int, u: int|
                0 <= r < u < cards.len() ==> match (#[trigger] cards[r], #[trigger] cards[u]) {
                    (
                        DiffRow::CommentCard { card: a, .. },
                        DiffRow::CommentCard { card: b, .. },
                    ) => a < b,
                    _ => false,
                }
        }),
    decreases n,
{
    if n > 0 {
        lemma_cards_ascend(file, anchors, anchor, (n - 1) as nat);
        lemma_under_content(file, anchors, anchor, (n - 1) as nat);
    }
}

proof fn lemma_in_order_append(a: Seq<DiffRow>, b: Seq<DiffRow>, r: int, u: int)
    requires
        0 <= r < u < a.len(),
        in_order(a, r, u),
    ensures
        in_order(a + b, r, u),
{
    lemma_hangs_on_prefix(a, b, r);
    lemma_hangs_on_prefix(a, b, u);
    assert((a + b)[r] == a[r] && (a + b)[u] == a[u]);
}

/// A row that neither is a line nor hangs on one keeps the order.
proof fn lemma_order_plain(rows: Seq<DiffRow>, row: DiffRow, bound: int)
    requires
        all_in_order(rows, bound),
        !hangs(row),
        !(row is Line),
    ensures
        all_in_order(rows.push(row), bound),
{
    let grown = rows.push(row);
    assert(grown =~= rows + seq![row]);
    assert forall|r: int, u: int| 0 <= r < u < grown.len() implies #[trigger] in_order(
        grown,
        r,
        u,
    ) by {
        if u < rows.len() {
            assert(in_order(rows, r, u));
            lemma_in_order_append(rows, seq![row], r, u);
        }
    }
}

#[verifier::rlimit(50)]
proof fn lemma_order_line(
    rows: Seq<DiffRow>,
    file: u32,
    hunk: u32,
    line: u32,
    flat: u32,
    anchors: Seq<Anchor>,
    draft: Option<Anchor>,
    anchor: Option<Anchor>,
)
    requires
        all_in_order(rows, flat as int),
        anchors.len() <= u32::MAX,
    ensures
        all_in_order(
            rows.push(DiffRow::Line { file, hunk, line, flat }) + under_line(
                file,
                anchors,
                draft,
                anchor,
            ),
            flat + 1,
        ),
{
    let row = DiffRow::Line { file, hunk, line, flat };
    let under = under_line(file, anchors, draft, anchor);
    let grown = rows.push(row) + under;
    let q = rows.len() as int;
    assert(grown =~= rows + (seq![row] + under));
    if let Some(a) = anchor {
        lemma_under_content(file, anchors, a, anchors.len());
        lemma_cards_ascend(file, anchors, a, anchors.len());
    }
    assert forall|k: int| q < k < grown.len() implies hangs(#[trigger] grown[k]) by {
        assert(grown[k] == under[k - q - 1]);
    }
    assert(grown[q] == row);
    assert forall|r: int, u: int| 0 <= r < u < grown.len() implies #[trigger] in_order(
        grown,
        r,
        u,
    ) by {
        if u < q {
            assert(in_order(rows, r, u));
            lemma_in_order_append(rows, seq![row] + under, r, u);
        } else {
            lemma_hang_together(grown, q, u);
            if r < q {
                lemma_hangs_on(rows, r);
                lemma_hangs_on_prefix(rows, seq![row] + under, r);
                assert(grown[r] == rows[r]);
            } else if r > q {
                assert(grown[r] == under[r - q - 1] && grown[u] == under[u - q - 1]);
            }
        }
    }
    assert forall|r: int| 0 <= r < grown.len() implies match #[trigger] grown[r] {
        DiffRow::Line { flat: f, .. } => f < flat + 1,
        _ => true,
    } by {
        if r < q {
            assert(grown[r] == rows[r]);
        }
    }
}

proof fn lemma_order_lines(
    rows: Seq<DiffRow>,
    file: u32,
    hunk: u32,
    base: nat,
    lines: Seq<LineModel>,
    anchors: Seq<Anchor>,
    draft: Option<Anchor>,
    n: nat,
)
    requires
        n <= lines.len(),
        base + lines.len() <= u32::MAX,
        anchors.len() <= u32::MAX,
        all_in_order(rows, base as int),
    ensures
        all_in_order(
            rows + line_rows(file, hunk, base, lines, anchors, draft, n),
            (base + n) as int,
        ),
    decreases n,
{
    let own = line_rows(file, hunk, base, lines, anchors, draft, n);
    if n == 0 {
        assert(rows + own =~= rows);
    } else {
        let l = (n - 1) as nat;
        let before = line_rows(file, hunk, base, lines, anchors, draft, l);
        lemma_order_lines(rows, file, hunk, base, lines, anchors, draft, l);
        let flat = (base + l) as u32;
        let anchor = anchor_of(lines[l as int]);
        lemma_order_line(rows + before, file, hunk, l as u32, flat, anchors, draft, anchor);
        let row = DiffRow::Line { file, hunk, line: l as u32, flat };
        assert(rows + own =~= (rows + before).push(row) + under_line(file, anchors, draft, anchor));
    }
}

proof fn lemma_order_hunks(
    rows: Seq<DiffRow>,
    file: u32,
    hunks: Seq<HunkModel>,
    anchors: Seq<Anchor>,
    draft: Option<Anchor>,
    n: nat,
)
    requires
        n <= hunks.len(),
        hunk_lines(hunks) <= u32::MAX,
        anchors.len() <= u32::MAX,
        all_in_order(rows, 0),
    ensures
        all_in_order(
            rows + hunk_rows(file, hunks, anchors, draft, n),
            hunk_lines(hunks.take(n as int)) as int,
        ),
    decreases n,
{
    let own = hunk_rows(file, hunks, anchors, draft, n);
    if n == 0 {
        assert(rows + own =~= rows);
        assert(hunks.take(0) =~= Seq::<HunkModel>::empty());
    } else {
        let h = n - 1;
        let before = hunk_rows(file, hunks, anchors, draft, h as nat);
        let header = DiffRow::HunkHeader { file, hunk: h as u32 };
        let lines = hunks[h].lines;
        let base = hunk_lines(hunks.take(h));
        lemma_order_hunks(rows, file, hunks, anchors, draft, h as nat);
        lemma_order_plain(rows + before, header, base as int);
        let opened = (rows + before).push(header);
        lemma_hunk_lines_prefix(hunks, n as int);
        assert(hunks.take(n as int).drop_last() =~= hunks.take(h));
        assert(hunks.take(n as int).last() == hunks[h]);
        lemma_order_lines(
            opened,
            file,
            h as u32,
            base,
            lines,
            anchors,
            draft,
            lines.len(),
        );
        let last = line_rows(file, h as u32, base, lines, anchors, draft, lines.len());
        assert(rows + own =~= opened + last);
    }
}

/// A body is in order: its lines as they stand in the patch, and under each line its cards as they
/// were staged, with the draft below them.
pub proof fn law_bodies_are_in_order(
    file: u32,
    model: FileModel,
    anchors: Seq<Anchor>,
    draft: Option<Anchor>,
    r: int,
    u: int,
)
    requires
        hunk_lines(model.hunks) <= u32::MAX,
        anchors.len() <= u32::MAX,
        0 <= r < u < body(file, model, anchors, draft).len(),
    ensures
        in_order(body(file, model, anchors, draft), r, u),
{
    let notices = notice_rows(file, notices_of(model).len());
    let hunks = model.hunks;
    let own = hunk_rows(file, hunks, anchors, draft, hunks.len());
    assert forall|r: int| 0 <= r < notices.len() implies #[trigger] notices[r] is Notice by {}
    assert(all_in_order(notices, 0)) by {
        assert forall|r: int, u: int| 0 <= r < u < notices.len() implies #[trigger] in_order(
            notices,
            r,
            u,
        ) by {
            assert(notices[r] is Notice);
        }
    }
    lemma_order_hunks(notices, file, hunks, anchors, draft, hunks.len());
    lemma_order_plain(
        notices + own,
        DiffRow::BodyPad { file },
        hunk_lines(hunks.take(hunks.len() as int)) as int,
    );
}

/// Each hunk is opened by its header, with its first line right below.
pub open spec fn is_opened(rows: Seq<DiffRow>, file: u32, hunks: Seq<HunkModel>, h: int) -> bool {
    exists|p: int|
        0 <= p < rows.len() && #[trigger] rows[p] == (DiffRow::HunkHeader { file, hunk: h as u32 })
            && (hunks[h].lines.len() > 0 ==> p + 1 < rows.len() && rows[p + 1] == (DiffRow::Line {
            file,
            hunk: h as u32,
            line: 0,
            flat: hunk_lines(hunks.take(h)) as u32,
        }))
}

proof fn lemma_first_line(
    file: u32,
    hunk: u32,
    base: nat,
    lines: Seq<LineModel>,
    anchors: Seq<Anchor>,
    draft: Option<Anchor>,
    n: nat,
)
    requires
        0 < n <= lines.len(),
    ensures
        line_rows(file, hunk, base, lines, anchors, draft, n).len() > 0,
        line_rows(file, hunk, base, lines, anchors, draft, n)[0] == (DiffRow::Line {
            file,
            hunk,
            line: 0,
            flat: base as u32,
        }),
    decreases n,
{
    if n > 1 {
        lemma_first_line(file, hunk, base, lines, anchors, draft, (n - 1) as nat);
    } else {
        let none = line_rows(file, hunk, base, lines, anchors, draft, 0);
        assert(none.len() == 0);
    }
}

proof fn lemma_opened(
    rows: Seq<DiffRow>,
    file: u32,
    hunks: Seq<HunkModel>,
    anchors: Seq<Anchor>,
    draft: Option<Anchor>,
    n: nat,
    h: int,
    behind: Seq<DiffRow>,
)
    requires
        0 <= h < n <= hunks.len(),
    ensures
        is_opened(rows + hunk_rows(file, hunks, anchors, draft, n) + behind, file, hunks, h),
    decreases n,
{
    let g = n - 1;
    let own = hunk_rows(file, hunks, anchors, draft, n);
    let before = hunk_rows(file, hunks, anchors, draft, g as nat);
    let header = DiffRow::HunkHeader { file, hunk: g as u32 };
    let lines = hunks[g].lines;
    let base = hunk_lines(hunks.take(g));
    let last = line_rows(file, g as u32, base, lines, anchors, draft, lines.len());
    let all = rows + own + behind;
    if h < g {
        lemma_opened(
            rows,
            file,
            hunks,
            anchors,
            draft,
            g as nat,
            h,
            (seq![header] + last) + behind,
        );
        assert(rows + before + ((seq![header] + last) + behind) =~= all);
    } else {
        let p = (rows + before).len() as int;
        assert(all[p] == header);
        if lines.len() > 0 {
            lemma_first_line(file, g as u32, base, lines, anchors, draft, lines.len());
            assert(all[p + 1] == last[0]);
        }
    }
}

/// A body begins with its file's notices, in their order, opens each hunk with its header, and is
/// closed by a pad.
pub proof fn law_bodies_have_their_parts(
    file: u32,
    model: FileModel,
    anchors: Seq<Anchor>,
    draft: Option<Anchor>,
)
    ensures
        ({
            let rows = body(file, model, anchors, draft);
            &&& rows.len() > 0 && rows.last() == (DiffRow::BodyPad { file })
            &&& forall|i: int|
                0 <= i < notices_of(model).len() ==> i < rows.len() && #[trigger] rows[i] == (
                DiffRow::Notice { file, notice: i as u32 })
            &&& forall|h: int|
                0 <= h < model.hunks.len() ==> #[trigger] is_opened(rows, file, model.hunks, h)
        }),
{
    let rows = body(file, model, anchors, draft);
    let notices = notice_rows(file, notices_of(model).len());
    let hunks = model.hunks;
    let own = hunk_rows(file, hunks, anchors, draft, hunks.len());
    let pad = DiffRow::BodyPad { file };
    assert(rows =~= notices + own + seq![pad]);
    assert forall|i: int| 0 <= i < notices_of(model).len() implies i < rows.len()
        && #[trigger] rows[i] == (DiffRow::Notice { file, notice: i as u32 }) by {
        assert(rows[i] == notices[i]);
    }
    assert forall|h: int| 0 <= h < hunks.len() implies #[trigger] is_opened(
        rows,
        file,
        hunks,
        h,
    ) by {
        lemma_opened(notices, file, hunks, anchors, draft, hunks.len(), h, seq![pad]);
    }
}

} // verus!
