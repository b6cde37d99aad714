//! The parsed diff that the changes pane shows: its row model, folded files and comment cards.
//!
//! The pane keeps one section of rows per file, a header first. Bodies are swapped in place, and
//! every swap is reported as a splice so that the list keeps its scroll anchor.

use std::collections::hash_map::DefaultHasher;
use std::hash::Hasher;
use std::ops::Range;

use vstd::prelude::*;
use vstd::std_specs::hash::DefaultHasherAdditionalSpecFns;
use vstd::utf8::encode_utf8;

use crate::comments::{CommentSide, DiffComment};
use crate::patch::{file_models, total_lines, FileDiff};
use crate::rows::{
    draft_model, file_body, flat_rows, flatten_rows, section, spans_of, tiled, DiffRow, DraftModel,
};
use crate::text::{decimal, push_decimal, same_str};

verus! {

/// Tween arming window after a fold toggle, in milliseconds.
pub const FOLD_TWEEN_WINDOW_MS: u64 = 400;

/// Whether a file is folded shut, and when that last changed.
#[derive(Debug, Clone, Copy, PartialEq, Eq, Structural)]
pub struct FileFold {
    pub collapsed: bool,
    /// Bumped per toggle — keys the height tween + chevron transition.
    pub epoch: usize,
    /// When the toggle happened, in milliseconds: the tweens are armed only briefly after the
    /// click.
    pub toggled_at: Option<u64>,
}

impl Default for FileFold {
    fn default() -> (r: Self)
        ensures
            r == open_fold(),
    {
        FileFold { collapsed: false, epoch: 0, toggled_at: None }
    }
}

/// The fold of a file that was never toggled.
pub open spec fn open_fold() -> FileFold {
    FileFold { collapsed: false, epoch: 0, toggled_at: None }
}

impl FileFold {
    /// Whether the fold's tween is still running at `now`.
    pub open spec fn is_animating(self, now: u64) -> bool {
        &&& self.epoch > 0
        &&& self.toggled_at is Some
        &&& now - self.toggled_at->0 < FOLD_TWEEN_WINDOW_MS
    }

    pub fn animating(&self, now: u64) -> (r: bool)
        ensures
            r == self.is_animating(now),
    {
        match self.toggled_at {
            Some(at) => self.epoch > 0 && (now < at || now - at < FOLD_TWEEN_WINDOW_MS),
            None => false,
        }
    }
}

/// One file's fold.
#[derive(Debug, Clone, PartialEq, Eq)]
pub struct FoldEntry {
    pub path: String,
    pub fold: FileFold,
}

/// The fold of `path` among the entries, if it has one.
pub open spec fn fold_at(entries: Seq<FoldEntry>, path: Seq<char>) -> Option<FileFold>
    decreases entries.len(),
{
    if entries.len() == 0 {
        None
    } else if entries.last().path@ == path {
        Some(entries.last().fold)
    } else {
        fold_at(entries.drop_last(), path)
    }
}

/// The fold of `path`, open where it has none.
pub open spec fn fold_or_open(entries: Seq<FoldEntry>, path: Seq<char>) -> FileFold {
    match fold_at(entries, path) {
        Some(fold) => fold,
        None => open_fold(),
    }
}

proof fn lemma_fold_update(entries: Seq<FoldEntry>, i: int, entry: FoldEntry, path: Seq<char>)
    requires
        0 <= i < entries.len(),
        entry.path@ == entries[i].path@,
        forall|j: int| i < j < entries.len() ==> (#[trigger] entries[j]).path@ != entry.path@,
    ensures
        fold_at(entries.update(i, entry), path) == if path == entry.path@ {
            Some(entry.fold)
        } else {
            fold_at(entries, path)
        },
    decreases entries.len(),
{
    let next = entries.update(i, entry);
    if i == entries.len() - 1 {
        assert(next.drop_last() =~= entries.drop_last());
    } else {
        assert(next.drop_last() =~= entries.drop_last().update(i, entry));
        lemma_fold_update(entries.drop_last(), i, entry, path);
    }
}

fn find_fold(entries: &Vec<FoldEntry>, path: &str) -> (r: Option<usize>)
    ensures
        match r {
            Some(i) => i < entries@.len() && entries@[i as int].path@ == path@ && fold_at(
                entries@,
                path@,
            ) == Some(entries@[i as int].fold) && forall|j: int|
                i < j < entries@.len() ==> (#[trigger] entries@[j]).path@ != path@,
            None => fold_at(entries@, path@) is None,
        },
{
    let mut n: usize = entries.len();
    assert(entries@.take(n as int) =~= entries@);
    while n > 0
        invariant
            n <= entries@.len(),
            fold_at(entries@, path@) == fold_at(entries@.take(n as int), path@),
            forall|j: int| n <= j < entries@.len() ==> (#[trigger] entries@[j]).path@ != path@,
        decreases n,
    {
        assert(entries@.take(n as int).drop_last() =~= entries@.take(n - 1));
        n -= 1;
        if same_str(entries[n].path.as_str(), path) {
            return Some(n);
        }
    }
    None
}

fn set_fold(entries: &mut Vec<FoldEntry>, path: &str, fold: FileFold)
    ensures
        forall|q: Seq<char>| #[trigger]
            fold_at(final(entries)@, q) == if q == path@ {
                Some(fold)
            } else {
                fold_at(old(entries)@, q)
            },
{
    let entry = FoldEntry { path: path.to_owned(), fold };
    match find_fold(entries, path) {
        Some(i) => {
            proof {
                assert forall|q: Seq<char>| #[trigger]
                    fold_at(entries@.update(i as int, entry), q) == if q == path@ {
                        Some(fold)
                    } else {
                        fold_at(entries@, q)
                    } by {
                    lemma_fold_update(entries@, i as int, entry, q);
                }
            }
            entries[i] = entry;
        },
        None => {
            let ghost before = entries@;
            entries.push(entry);
            assert(entries@.drop_last() =~= before);
        },
    }
}

fn get_fold(entries: &Vec<FoldEntry>, path: &str) -> (r: FileFold)
    ensures
        r == fold_or_open(entries@, path@),
{
    match find_fold(entries, path) {
        Some(i) => entries[i].fold,
        None => FileFold::default(),
    }
}

// ---------------------------------------------------------------------------
// Splices
// ---------------------------------------------------------------------------

/// Rows `start..end` of a list give way to `count` others.
#[derive(Debug, Clone, Copy, PartialEq, Eq, Structural)]
pub struct Splice {
    pub start: usize,
    pub end: usize,
    pub count: usize,
}

/// How many rows the two sequences begin with in common.
pub open spec fn common_prefix(a: Seq<DiffRow>, b: Seq<DiffRow>) -> nat
    decreases a.len(),
{
    if a.len() > 0 && b.len() > 0 && a[0] == b[0] {
        1 + common_prefix(a.drop_first(), b.drop_first())
    } else {
        0
    }
}

/// How many rows the two sequences end with in common.
pub open spec fn common_suffix(a: Seq<DiffRow>, b: Seq<DiffRow>) -> nat
    decreases a.len(),
{
    if a.len() > 0 && b.len() > 0 && a.last() == b.last() {
        1 + common_suffix(a.drop_last(), b.drop_last())
    } else {
        0
    }
}

proof fn lemma_common_prefix(a: Seq<DiffRow>, b: Seq<DiffRow>)
    ensures
        common_prefix(a, b) <= a.len(),
        common_prefix(a, b) <= b.len(),
        a.take(common_prefix(a, b) as int) == b.take(common_prefix(a, b) as int),
    decreases a.len(),
{
    let n = common_prefix(a, b) as int;
    if a.len() > 0 && b.len() > 0 && a[0] == b[0] {
        lemma_common_prefix(a.drop_first(), b.drop_first());
        assert forall|i: int| 0 <= i < n implies a[i] == b[i] by {
            if i > 0 {
                assert(a.drop_first().take(n - 1)[i - 1] == b.drop_first().take(n - 1)[i - 1]);
            }
        }
    }
    assert(a.take(n) =~= b.take(n));
}

proof fn lemma_common_prefix_same(a: Seq<DiffRow>)
    ensures
        common_prefix(a, a) == a.len(),
    decreases a.len(),
{
    if a.len() > 0 {
        lemma_common_prefix_same(a.drop_first());
    }
}

/// Bodies of one length whose common beginning and end cover it are the same.
proof fn lemma_covered(a: Seq<DiffRow>, b: Seq<DiffRow>)
    ensures
        ({
            let p = common_prefix(a, b) as int;
            let s = common_suffix(a.skip(p), b.skip(p)) as int;
            a == b <==> a.len() == b.len() && p + s >= a.len()
        }),
{
    let p = common_prefix(a, b) as int;
    let x = a.skip(p);
    let y = b.skip(p);
    let s = common_suffix(x, y) as int;
    lemma_common_prefix(a, b);
    lemma_common_suffix(x, y);
    if a == b {
        lemma_common_prefix_same(a);
    } else if a.len() == b.len() && p + s >= a.len() {
        assert forall|k: int| 0 <= k < a.len() implies a[k] == b[k] by {
            if k < p {
                assert(a.take(p)[k] == b.take(p)[k]);
            } else {
                assert(x.skip(x.len() - s)[k - p] == y.skip(y.len() - s)[k - p]);
            }
        }
        assert(a =~= b);
    }
}

proof fn lemma_common_suffix(a: Seq<DiffRow>, b: Seq<DiffRow>)
    ensures
        common_suffix(a, b) <= a.len(),
        common_suffix(a, b) <= b.len(),
        a.skip(a.len() - common_suffix(a, b)) == b.skip(b.len() - common_suffix(a, b)),
    decreases a.len(),
{
    let n = common_suffix(a, b) as int;
    if a.len() > 0 && b.len() > 0 && a.last() == b.last() {
        lemma_common_suffix(a.drop_last(), b.drop_last());
        let x = a.drop_last().skip(a.len() - n);
        let y = b.drop_last().skip(b.len() - n);
        assert(x == y);
        assert forall|i: int| 0 <= i < n implies #[trigger] a.skip(a.len() - n)[i] == b.skip(
            b.len() - n,
        )[i] by {
            if i < n - 1 {
                assert(x[i] == y[i]);
            }
        }
    }
    assert(a.skip(a.len() - n) =~= b.skip(b.len() - n));
}

/// The splice that turns the body `old`, whose header is row `start`, into `new`: only the rows
/// between the common beginning and the common end. None where nothing changes.
pub open spec fn splice_of(start: int, old: Seq<DiffRow>, new: Seq<DiffRow>) -> Option<Splice> {
    let p = common_prefix(old, new) as int;
    let s = common_suffix(old.skip(p), new.skip(p)) as int;
    if old == new {
        None
    } else {
        Some(
            Splice {
                start: (start + 1 + p) as usize,
                end: (start + 1 + old.len() - s) as usize,
                count: (new.len() - p - s) as usize,
            },
        )
    }
}

// ---------------------------------------------------------------------------
// The pane
// ---------------------------------------------------------------------------

/// A parsed diff and the rows that show it.
pub struct DiffPane {
    pub files: Vec<FileDiff>,
    pub rows: Vec<DiffRow>,
    /// Each file's span of rows.
    pub ranges: Vec<Range<usize>>,
    pub folds: Vec<FoldEntry>,
    /// Identity of the comments and the draft that the rows show.
    pub comment_key: u64,
}

/// The header row of file `ix`.
pub open spec fn header(ix: int) -> DiffRow {
    DiffRow::FileHeader { file: ix as u32 }
}

/// A header with the row that stands in for a body mid-tween.
pub open spec fn folding_section(ix: int) -> Seq<DiffRow> {
    seq![header(ix), DiffRow::FoldingBody { file: ix as u32 }]
}

/// Whether a section's body is the stand-in of a fold tween.
pub open spec fn is_folding(rows: Seq<DiffRow>, ix: int) -> bool {
    rows.len() > 1 && rows[1] == DiffRow::FoldingBody { file: ix as u32 }
}

impl DiffPane {
    /// The rows of each file.
    pub open spec fn sections(self) -> Seq<Seq<DiffRow>> {
        Seq::new(
            self.ranges@.len(),
            |i: int| self.rows@.subrange(self.ranges@[i].start as int, self.ranges@[i].end as int),
        )
    }

    /// The body rows of file `i`.
    pub open spec fn body_of(self, i: int) -> Seq<DiffRow> {
        self.sections()[i].skip(1)
    }

    /// The spans tile the rows, one per file, and each begins with its file's header.
    pub open spec fn wf(self) -> bool {
        &&& tiled(self.ranges@, self.rows@.len() as int)
        &&& self.ranges@.len() == self.files@.len()
        &&& forall|i: int|
            0 <= i < self.ranges@.len() ==> self.rows@[(#[trigger] self.ranges@[i]).start as int]
                == header(i)
        &&& forall|i: int|
            0 <= i < self.files@.len() ==> total_lines(#[trigger] self.files@[i]@) <= usize::MAX
    }

    /// Nothing but the rows differs.
    pub open spec fn same_but_rows(self, other: Self) -> bool {
        &&& self.files == other.files
        &&& self.folds == other.folds
        &&& self.comment_key == other.comment_key
    }

    proof fn lemma_ranges(self)
        requires
            self.wf(),
        ensures
            forall|i: int, j: int|
                0 <= i < j < self.ranges@.len() ==> (#[trigger] self.ranges@[i]).end <= (
                #[trigger] self.ranges@[j]).start,
            forall|i: int|
                0 <= i < self.ranges@.len() ==> (#[trigger] self.ranges@[i]).end <= self.rows@.len(),
    {
        let r = self.ranges@;
        assert forall|i: int, j: int| 0 <= i < j < r.len() implies (#[trigger] r[i]).end <= (
        #[trigger] r[j]).start by {
            lemma_tiled_order(r, self.rows@.len() as int, i, j);
        }
        assert forall|i: int| 0 <= i < r.len() implies (#[trigger] r[i]).end <= self.rows@.len() by {
            if i < r.len() - 1 {
                lemma_tiled_order(r, self.rows@.len() as int, i, r.len() - 1);
            }
        }
    }

    /// Swap one file's body rows (everything after its header) for
    /// `new_body`, splicing both the row model and, through the result, the list. Only the rows
    /// that moved are spliced, so that a list anchored inside the body does not jump to its top.
    pub fn replace_file_body(&mut self, file_ix: usize, new_body: Vec<DiffRow>) -> (r: Option<
        Splice,
    >)
        requires
            old(self).wf(),
        ensures
            final(self).wf(),
            final(self).same_but_rows(*old(self)),
            file_ix >= old(self).ranges@.len() ==> r is None && *final(self) == *old(self),
            file_ix < old(self).ranges@.len() ==> {
                &&& final(self).sections() == old(self).sections().update(
                    file_ix as int,
                    seq![header(file_ix as int)] + new_body@,
                )
                &&& r == splice_of(
                    old(self).ranges@[file_ix as int].start as int,
                    old(self).body_of(file_ix as int),
                    new_body@,
                )
                &&& forall|j: int|
                    0 <= j <= file_ix ==> (#[trigger] final(self).ranges@[j]).start
                        == old(self).ranges@[j].start
            },
    {
        let count: usize = self.ranges.len();
        if file_ix >= count {
            return None;
        }
        let ghost before = *self;
        let ghost ix = file_ix as int;
        proof {
            self.lemma_ranges();
        }
        let start: usize = self.ranges[file_ix].start;
        let end: usize = self.ranges[file_ix].end;
        let first: usize = start + 1;
        let total: usize = self.rows.len();
        let width: usize = new_body.len();
        let ghost old_body = self.rows@.subrange(first as int, end as int);
        let prefix = prefix_len(&self.rows, first, end, &new_body);
        let suffix = suffix_len(&self.rows, first + prefix, end, &new_body, prefix);
        proof {
            assert(old_body =~= self.body_of(ix));
            assert(self.rows@.subrange(first + prefix, end as int) =~= old_body.skip(prefix as int));
            lemma_covered(old_body, new_body@);
        }
        if width == end - first && prefix + suffix >= width {
            proof {
                assert(self.sections()[ix] =~= seq![header(ix)] + new_body@);
                assert(self.sections() =~= before.sections().update(
                    ix,
                    seq![header(ix)] + new_body@,
                ));
            }
            return None;
        }
        let from: usize = first + prefix;
        let upto: usize = end - suffix;
        let mid = copied(&new_body, prefix, width - suffix);
        let inserted: usize = mid.len();
        splice_rows(&mut self.rows, from, upto, mid);
        proof {
            lemma_common_prefix(old_body, new_body@);
            lemma_common_suffix(old_body.skip(prefix as int), new_body@.skip(prefix as int));
            lemma_spliced(
                before.rows@,
                new_body@,
                first as int,
                end as int,
                prefix as int,
                suffix as int,
                self.rows@,
            );
        }
        let grown: usize = self.rows.len();
        let new_end: usize = first + width;
        self.ranges[file_ix] = start..new_end;
        proof {
            assert forall|k: int| file_ix < k < count implies {
                &&& end <= (#[trigger] self.ranges@[k]).start
                &&& self.ranges@[k].start <= self.ranges@[k].end
                &&& self.ranges@[k].end - end + new_end <= grown
            } by {
                assert(self.ranges@[k] == before.ranges@[k]);
                assert(before.ranges@[ix].end <= before.ranges@[k].start);
                assert(before.ranges@[k].start < before.ranges@[k].end);
                assert(before.ranges@[k].end <= before.rows@.len());
            }
        }
        shift_ranges(&mut self.ranges, file_ix + 1, end, new_end, grown);
        proof {
            before.lemma_ranges();
            self.lemma_after_swap(before, ix, start as int, end as int, new_body@);
        }
        Some(Splice { start: from, end: upto, count: inserted })
    }

    proof fn lemma_after_swap(
        self,
        before: Self,
        ix: int,
        start: int,
        end: int,
        new_body: Seq<DiffRow>,
    )
        requires
            before.wf(),
            0 <= ix < before.ranges@.len(),
            before.ranges@[ix].start == start,
            before.ranges@[ix].end == end,
            self.files == before.files,
            self.ranges@.len() == before.ranges@.len(),
            self.rows@ == before.rows@.take(start + 1) + new_body + before.rows@.skip(end),
            forall|k: int| 0 <= k < ix ==> #[trigger] self.ranges@[k] == before.ranges@[k],
            self.ranges@[ix].start == start,
            self.ranges@[ix].end == start + 1 + new_body.len(),
            forall|k: int|
                ix < k < self.ranges@.len() ==> {
                    &&& (#[trigger] self.ranges@[k]).start == before.ranges@[k].start - end + start
                        + 1 + new_body.len()
                    &&& self.ranges@[k].end == before.ranges@[k].end - end + start + 1
                        + new_body.len()
                },
        ensures
            self.wf(),
            self.sections() == before.sections().update(ix, seq![header(ix)] + new_body),
    {
        before.lemma_ranges();
        let shift = start + 1 + new_body.len() - end;
        let a = before.ranges@;
        let b = self.ranges@;
        let n = a.len() as int;
        assert forall|k: int| 0 <= k < n implies {
            &&& (#[trigger] b[k]).start < b[k].end <= self.rows@.len()
            &&& self.rows@[b[k].start as int] == header(k)
            &&& self.sections()[k] == before.sections().update(
                ix,
                seq![header(ix)] + new_body,
            )[k]
        } by {
            assert(a[k].start < a[k].end);
            assert(before.rows@[a[k].start as int] == header(k));
            if k < ix {
                assert(a[k].end <= a[ix].start);
                assert(self.sections()[k] =~= before.sections()[k]);
            } else if k == ix {
                assert(self.sections()[k] =~= seq![header(ix)] + new_body);
            } else {
                assert(a[ix].end <= a[k].start);
                assert(self.sections()[k] =~= before.sections()[k]);
            }
        }
        assert(self.sections() =~= before.sections().update(ix, seq![header(ix)] + new_body));
        assert forall|i: int, j: int| 0 <= i && j == i + 1 && j < n implies (#[trigger] b[i]).end
            == (#[trigger] b[j]).start by {
            assert(a[i].end == a[j].start);
        }
        assert(a.last() == a[n - 1]);
        assert(a[0].start == 0);
        assert(b[0].start == 0);
        assert(b[n - 1].end == self.rows@.len());
    }
}

/// The rows `from..upto`.
fn copied(rows: &Vec<DiffRow>, from: usize, upto: usize) -> (r: Vec<DiffRow>)
    requires
        from <= upto <= rows@.len(),
    ensures
        r@ == rows@.subrange(from as int, upto as int),
{
    let mut r: Vec<DiffRow> = Vec::new();
    for k in from..upto
        invariant
            from <= upto <= rows@.len(),
            r@ == rows@.subrange(from as int, k as int),
    {
        r.push(rows[k]);
        assert(r@ =~= rows@.subrange(from as int, k + 1));
    }
    r
}

/// Rows `from..upto` give way to `mid`.
fn splice_rows(rows: &mut Vec<DiffRow>, from: usize, upto: usize, mid: Vec<DiffRow>)
    requires
        from <= upto <= old(rows)@.len(),
    ensures
        final(rows)@ == old(rows)@.take(from as int) + mid@ + old(rows)@.skip(upto as int),
{
    let ghost before = rows@;
    let ghost added = mid@;
    let mut mid = mid;
    let mut tail = rows.split_off(upto);
    rows.truncate(from);
    rows.append(&mut mid);
    rows.append(&mut tail);
    assert(rows@ =~= before.take(from as int) + added + before.skip(upto as int));
}

/// How many rows the body `rows[first..end]` and `new_body` begin with in common.
fn prefix_len(rows: &Vec<DiffRow>, first: usize, end: usize, new_body: &Vec<DiffRow>) -> (r: usize)
    requires
        first <= end <= rows@.len(),
    ensures
        r == common_prefix(rows@.subrange(first as int, end as int), new_body@),
        r <= end - first,
        r <= new_body@.len(),
{
    let ghost a = rows@.subrange(first as int, end as int);
    let ghost b = new_body@;
    let mut n: usize = 0;
    assert(a.skip(0) =~= a);
    assert(b.skip(0) =~= b);
    while n < end - first && n < new_body.len() && rows[first + n] == new_body[n]
        invariant
            first <= end <= rows@.len(),
            a == rows@.subrange(first as int, end as int),
            b == new_body@,
            n <= a.len(),
            n <= b.len(),
            common_prefix(a, b) == n + common_prefix(a.skip(n as int), b.skip(n as int)),
        decreases a.len() - n,
    {
        assert(a.skip(n as int)[0] == rows@[first + n]);
        assert(a.skip(n as int).drop_first() =~= a.skip(n + 1));
        assert(b.skip(n as int).drop_first() =~= b.skip(n + 1));
        n += 1;
    }
    assert(n < a.len() ==> a.skip(n as int)[0] == rows@[first + n]);
    n
}

/// How many rows `rows[first..end]` and `new_body[from..]` end with in common.
fn suffix_len(
    rows: &Vec<DiffRow>,
    first: usize,
    end: usize,
    new_body: &Vec<DiffRow>,
    from: usize,
) -> (r: usize)
    requires
        first <= end <= rows@.len(),
        from <= new_body@.len(),
    ensures
        r == common_suffix(rows@.subrange(first as int, end as int), new_body@.skip(from as int)),
        r <= end - first,
        r <= new_body@.len() - from,
{
    let ghost a = rows@.subrange(first as int, end as int);
    let ghost b = new_body@.skip(from as int);
    let width: usize = new_body.len();
    let mut n: usize = 0;
    assert(a.take(a.len() as int) =~= a);
    assert(b.take(b.len() as int) =~= b);
    while n < end - first && n < width - from && rows[end - 1 - n] == new_body[width - 1 - n]
        invariant
            first <= end <= rows@.len(),
            from <= width,
            width == new_body@.len(),
            a == rows@.subrange(first as int, end as int),
            b == new_body@.skip(from as int),
            n <= a.len(),
            n <= b.len(),
            common_suffix(a, b) == n + common_suffix(a.take(a.len() - n), b.take(b.len() - n)),
        decreases a.len() - n,
    {
        proof {
            assert(a.take(a.len() - n).last() == rows@[end - 1 - n]);
            assert(b.take(b.len() - n).last() == new_body@[width - 1 - n]);
            assert(a.take(a.len() - n).drop_last() =~= a.take(a.len() - n - 1));
            assert(b.take(b.len() - n).drop_last() =~= b.take(b.len() - n - 1));
        }
        n += 1;
    }
    proof {
        if n < a.len() && n < b.len() {
            assert(a.take(a.len() - n).last() == rows@[end - 1 - n]);
            assert(b.take(b.len() - n).last() == new_body@[width - 1 - n]);
        }
    }
    n
}

/// Move the spans from `from` on so that what began at `end` begins at `new_end`.
fn shift_ranges(
    ranges: &mut Vec<Range<usize>>,
    from: usize,
    end: usize,
    new_end: usize,
    limit: usize,
)
    requires
        forall|k: int|
            from <= k < old(ranges)@.len() ==> {
                &&& end <= (#[trigger] old(ranges)@[k]).start
                &&& old(ranges)@[k].start <= old(ranges)@[k].end
                &&& old(ranges)@[k].end - end + new_end <= limit
            },
    ensures
        final(ranges)@.len() == old(ranges)@.len(),
        forall|k: int|
            0 <= k < from && k < final(ranges)@.len() ==> #[trigger] final(ranges)@[k] == old(
                ranges,
            )@[k],
        forall|k: int|
            from <= k < final(ranges)@.len() ==> {
                &&& (#[trigger] final(ranges)@[k]).start == old(ranges)@[k].start - end + new_end
                &&& final(ranges)@[k].end == old(ranges)@[k].end - end + new_end
            },
{
    let ghost before = ranges@;
    let count: usize = ranges.len();
    let mut j: usize = from;
    while j < count
        invariant
            count == before.len(),
            ranges@.len() == count,
            from <= j,
            forall|k: int|
                from <= k < before.len() ==> {
                    &&& end <= (#[trigger] before[k]).start
                    &&& before[k].start <= before[k].end
                    &&& before[k].end - end + new_end <= limit
                },
            forall|k: int| 0 <= k < from && k < count ==> #[trigger] ranges@[k] == before[k],
            forall|k: int| j <= k < count ==> #[trigger] ranges@[k] == before[k],
            forall|k: int|
                from <= k < j && k < count ==> {
                    &&& (#[trigger] ranges@[k]).start == before[k].start - end + new_end
                    &&& ranges@[k].end == before[k].end - end + new_end
                },
        decreases count - j,
    {
        assert(before[j as int].start - end + new_end <= limit);
        let s: usize = ranges[j].start - end + new_end;
        let e: usize = ranges[j].end - end + new_end;
        ranges[j] = s..e;
        j += 1;
    }
}

proof fn lemma_tiled_order(ranges: Seq<Range<usize>>, total: int, i: int, j: int)
    requires
        tiled(ranges, total),
        0 <= i < j < ranges.len(),
    ensures
        ranges[i].end <= ranges[j].start,
    decreases j - i,
{
    assert(ranges[i].end == ranges[i + 1].start);
    if i + 1 < j {
        lemma_tiled_order(ranges, total, i + 1, j);
        assert(ranges[i + 1].start < ranges[i + 1].end);
    }
}

/// Splicing only the middle of a body gives the whole new body.
proof fn lemma_spliced(
    rows: Seq<DiffRow>,
    new_body: Seq<DiffRow>,
    first: int,
    end: int,
    prefix: int,
    suffix: int,
    result: Seq<DiffRow>,
)
    requires
        0 <= first <= end <= rows.len(),
        0 <= prefix,
        0 <= suffix,
        prefix + suffix <= end - first,
        prefix + suffix <= new_body.len(),
        rows.subrange(first, end).take(prefix) == new_body.take(prefix),
        rows.subrange(first, end).skip(prefix).skip(end - first - prefix - suffix) == new_body.skip(
            prefix,
        ).skip(new_body.len() - prefix - suffix),
        result == rows.take(first + prefix) + new_body.subrange(prefix, new_body.len() - suffix)
            + rows.skip(end - suffix),
    ensures
        result == rows.take(first) + new_body + rows.skip(end),
{
    let want = rows.take(first) + new_body + rows.skip(end);
    let mid = new_body.subrange(prefix, new_body.len() - suffix);
    let head = rows.take(first + prefix);
    let cut = first + new_body.len() - suffix;
    assert(head.len() + mid.len() == cut);
    assert(result.len() == want.len());
    assert forall|k: int| 0 <= k < result.len() implies result[k] == want[k] by {
        if first + prefix <= k < cut {
            assert(result[k] == mid[k - first - prefix]);
            assert(result[k] == new_body[k - first]);
        } else if k >= cut {
            assert(result[k] == rows.skip(end - suffix)[k - cut]);
            assert(result[k] == rows[end - suffix + (k - cut)]);
        } else {
            assert(result[k] == head[k]);
            assert(result[k] == rows[k]);
        }
        if k < first {
            assert(want[k] == rows[k]);
        } else if k < first + new_body.len() {
            assert(want[k] == new_body[k - first]);
        } else {
            assert(want[k] == rows.skip(end)[k - first - new_body.len()]);
            assert(want[k] == rows[end + (k - first - new_body.len())]);
        }
        if first <= k < first + prefix {
            assert(rows.subrange(first, end).take(prefix)[k - first] == new_body.take(prefix)[k
                - first]);
            assert(rows.subrange(first, end).take(prefix)[k - first] == rows.subrange(first, end)[k
                - first]);
            assert(rows.subrange(first, end)[k - first] == rows[k]);
            assert(new_body.take(prefix)[k - first] == new_body[k - first]);
        } else if cut <= k < first + new_body.len() {
            let d = k - cut;
            let x = rows.subrange(first, end).skip(prefix);
            let y = new_body.skip(prefix);
            assert(x.skip(end - first - prefix - suffix)[d] == y.skip(
                new_body.len() - prefix - suffix,
            )[d]);
            assert(x.skip(end - first - prefix - suffix)[d] == x[end - first - prefix - suffix + d]);
            assert(x[end - first - prefix - suffix + d] == rows[end - suffix + d]);
            assert(y.skip(new_body.len() - prefix - suffix)[d] == y[new_body.len() - prefix - suffix
                + d]);
            assert(y[new_body.len() - prefix - suffix + d] == new_body[k - first]);
        }
    }
    assert(result =~= want);
}

// ---------------------------------------------------------------------------
// Comment state
// ---------------------------------------------------------------------------

/// What the parts write to a hasher, each closed by a byte that no string holds.
pub open spec fn hash_writes(parts: Seq<Seq<char>>) -> Seq<Seq<u8>>
    decreases parts.len(),
{
    if parts.len() == 0 {
        Seq::empty()
    } else {
        hash_writes(parts.drop_last()).push(encode_utf8(parts.last())).push(seq![0xffu8])
    }
}

/// The hash of the parts, in order.
pub open spec fn hash_of(parts: Seq<Seq<char>>) -> u64 {
    DefaultHasher::spec_finish(hash_writes(parts))
}

pub fn hash64(parts: &Vec<String>) -> (r: u64)
    ensures
        r == hash_of(crate::text::texts(parts@)),
{
    let ghost all = crate::text::texts(parts@);
    let mut hasher = DefaultHasher::new();
    for i in 0..parts.len()
        invariant
            all == crate::text::texts(parts@),
            hasher@ == hash_writes(all.take(i as int)),
    {
        assert(all.take(i + 1).drop_last() =~= all.take(i as int));
        assert(all.take(i + 1).last() == parts@[i as int]@);
        hasher.write(parts[i].as_str().as_bytes());
        let close: [u8; 1] = [0xff];
        hasher.write(&close);
        assert(close@ =~= seq![0xffu8]);
    }
    assert(all.take(parts@.len() as int) =~= all);
    hasher.finish()
}

/// What identifies the comments and the draft that rows show: the comments' ids, then the draft.
pub open spec fn comment_parts(comments: Seq<DiffComment>, draft: DraftModel) -> Seq<Seq<char>> {
    let ids = comments.map_values(|c: DiffComment| c.id@);
    match draft {
        Some((path, side, line)) => ids.push(
            "draft:"@ + path + seq![':', side.letter(), ':'] + decimal(line as nat),
        ),
        None => ids,
    }
}

pub fn comment_state_key(comments: &[DiffComment], draft: Option<(&str, CommentSide, u32)>) -> (r:
    u64)
    ensures
        r == hash_of(comment_parts(comments@, draft_model(draft))),
{
    let mut parts: Vec<String> = Vec::new();
    let ghost ids = comments@.map_values(|c: DiffComment| c.id@);
    for i in 0..comments.len()
        invariant
            ids == comments@.map_values(|c: DiffComment| c.id@),
            crate::text::texts(parts@) =~= ids.take(i as int),
    {
        let ghost before = parts@;
        let id = comments[i].id.clone();
        parts.push(id);
        proof {
            crate::text::lemma_texts_push(before, id);
        }
    }
    assert(ids.take(comments@.len() as int) =~= ids);
    if let Some((path, side, line)) = draft {
        let mut part = "draft:".to_owned();
        part.push_str(path);
        part.push(':');
        part.push_str(side.tag());
        part.push(':');
        push_decimal(&mut part, line as u64);
        proof {
            assert(part@ =~= "draft:"@ + path@ + seq![':', side.letter(), ':'] + decimal(
                line as nat,
            ));
            crate::text::lemma_texts_push(parts@, part);
        }
        parts.push(part);
    }
    hash64(&parts)
}

// ---------------------------------------------------------------------------
// Folding and comment cards
// ---------------------------------------------------------------------------

/// Every file is expanded.
fn unfolded(_file_ix: usize) -> (r: bool)
    ensures
        !r,
{
    false
}

/// Every file is folded shut.
fn folded(_file_ix: usize) -> (r: bool)
    ensures
        r,
{
    true
}

/// The splices that turn the sections `old` into `new`, for the files from `from` on, last file
/// first.
pub open spec fn swap_splices(
    ranges: Seq<Range<usize>>,
    old: Seq<Seq<DiffRow>>,
    new: Seq<Seq<DiffRow>>,
    from: int,
) -> Seq<Splice>
    decreases ranges.len() - from,
{
    if from >= ranges.len() {
        Seq::empty()
    } else {
        let below = swap_splices(ranges, old, new, from + 1);
        match splice_of(ranges[from].start as int, old[from].skip(1), new[from].skip(1)) {
            Some(s) => below.push(s),
            None => below,
        }
    }
}

/// The splices that give each body its new length all at once, for the files from `from` on, last
/// file first; bodies that keep their length are left alone.
pub open spec fn resize_splices(
    ranges: Seq<Range<usize>>,
    new: Seq<Seq<DiffRow>>,
    from: int,
) -> Seq<Splice>
    decreases ranges.len() - from,
{
    if from >= ranges.len() {
        Seq::empty()
    } else {
        let below = resize_splices(ranges, new, from + 1);
        if ranges[from].end - ranges[from].start == new[from].len() {
            below
        } else {
            below.push(
                Splice {
                    start: (ranges[from].start + 1) as usize,
                    end: ranges[from].end,
                    count: (new[from].len() - 1) as usize,
                },
            )
        }
    }
}

impl DiffPane {
    /// An expanded section of file `i`.
    pub open spec fn open_section(self, i: int, comments: Seq<DiffComment>, draft: DraftModel) -> Seq<
        DiffRow,
    > {
        section(i, self.files@[i]@, comments, draft, false)
    }

    pub open spec fn fold_of(self, i: int) -> FileFold {
        fold_or_open(self.folds@, self.files@[i].path@)
    }

    /// A freshly parsed diff: every file expanded.
    pub fn show(
        files: Vec<FileDiff>,
        comments: &[DiffComment],
        draft: Option<(&str, CommentSide, u32)>,
    ) -> (r: Self)
        requires
            forall|i: int| 0 <= i < files@.len() ==> total_lines(#[trigger] files@[i]@) <= usize::MAX,
        ensures
            r.wf(),
            r.files == files,
            r.folds@.len() == 0,
            r.comment_key == hash_of(comment_parts(comments@, draft_model(draft))),
            r.sections() == Seq::new(
                files@.len(),
                |i: int| r.open_section(i, comments@, draft_model(draft)),
            ),
    {
        let (rows, ranges) = flatten_rows(files.as_slice(), comments, draft, unfolded);
        let comment_key = comment_state_key(comments, draft);
        let r = DiffPane { files, rows, ranges, folds: Vec::new(), comment_key };
        proof {
            let models = file_models(files@);
            let shown = draft_model(draft);
            let flags = choose|flags: Seq<bool>|
                {
                    &&& flags.len() == files@.len()
                    &&& forall|i: int| 0 <= i < flags.len() ==> !#[trigger] flags[i]
                    &&& r.rows@ == #[trigger] flat_rows(
                        models,
                        comments@,
                        shown,
                        flags,
                        files@.len(),
                    )
                    &&& spans_of(r.ranges@, models, comments@, shown, flags)
                };
            crate::rows::law_spans_tile_the_rows(models, comments@, shown, flags, r.ranges@);
            assert(r.sections() =~= Seq::new(
                files@.len(),
                |i: int| r.open_section(i, comments@, shown),
            ));
        }
        r
    }

    /// Fold a file shut or open. The body tweens as ONE clipped stand-in row; the settle sweep
    /// swaps it for steady rows (all lines, or none) once the window elapses.
    pub fn toggle_fold(&mut self, file_ix: usize, now: u64) -> (r: Option<Splice>)
        requires
            old(self).wf(),
        ensures
            final(self).wf(),
            final(self).files == old(self).files,
            final(self).comment_key == old(self).comment_key,
            file_ix >= old(self).files@.len() ==> r is None && *final(self) == *old(self),
            file_ix < old(self).files@.len() ==> {
                let ix = file_ix as int;
                let fold = old(self).fold_of(ix);
                &&& final(self).sections() == old(self).sections().update(ix, folding_section(ix))
                &&& r == splice_of(
                    old(self).ranges@[ix].start as int,
                    old(self).body_of(ix),
                    folding_section(ix).skip(1),
                )
                &&& forall|q: Seq<char>| #[trigger]
                    fold_at(final(self).folds@, q) == if q == old(self).files@[ix].path@ {
                        Some(
                            FileFold {
                                collapsed: !fold.collapsed,
                                epoch: if fold.epoch == usize::MAX {
                                    0
                                } else {
                                    (fold.epoch + 1) as usize
                                },
                                toggled_at: Some(now),
                            },
                        )
                    } else {
                        fold_at(old(self).folds@, q)
                    }
            },
    {
        if file_ix >= self.files.len() {
            return None;
        }
        let fold = get_fold(&self.folds, self.files[file_ix].path.as_str());
        let toggled = FileFold {
            collapsed: !fold.collapsed,
            epoch: if fold.epoch == usize::MAX {
                0
            } else {
                fold.epoch + 1
            },
            toggled_at: Some(now),
        };
        let path = self.files[file_ix].path.clone();
        let ghost before = *self;
        set_fold(&mut self.folds, path.as_str(), toggled);
        assert(self.wf());
        assert(self.sections() =~= before.sections());
        let mut stand_in: Vec<DiffRow> = Vec::new();
        stand_in.push(DiffRow::FoldingBody { file: file_ix as u32 });
        let r = self.replace_file_body(file_ix, stand_in);
        proof {
            let ix = file_ix as int;
            assert(seq![header(ix)] + stand_in@ =~= folding_section(ix));
            assert(folding_section(ix).skip(1) =~= stand_in@);
        }
        r
    }

    /// The section of file `i` once its tween, if it has ended, is settled.
    pub open spec fn settled(
        self,
        i: int,
        comments: Seq<DiffComment>,
        draft: DraftModel,
        now: u64,
    ) -> Seq<DiffRow> {
        if !is_folding(self.sections()[i], i) || self.fold_of(i).is_animating(now) {
            self.sections()[i]
        } else if self.fold_of(i).collapsed {
            seq![header(i)]
        } else {
            self.open_section(i, comments, draft)
        }
    }

    fn folding(&self, file_ix: usize) -> (r: bool)
        requires
            self.wf(),
            file_ix < self.ranges@.len(),
        ensures
            r == is_folding(self.sections()[file_ix as int], file_ix as int),
    {
        proof {
            self.lemma_ranges();
        }
        let start: usize = self.ranges[file_ix].start;
        let end: usize = self.ranges[file_ix].end;
        let ghost own = self.sections()[file_ix as int];
        assert(own == self.rows@.subrange(start as int, end as int));
        if end - start > 1 {
            assert(own[1] == self.rows@[start + 1]);
            self.rows[start + 1] == DiffRow::FoldingBody { file: file_ix as u32 }
        } else {
            false
        }
    }

    /// Replace every settled folding stand-in with its steady-state rows.
    /// Returns whether any stand-ins are still mid-tween, and the splices.
    pub fn settle_folds(
        &mut self,
        comments: &[DiffComment],
        draft: Option<(&str, CommentSide, u32)>,
        now: u64,
    ) -> (r: (bool, Vec<Splice>))
        requires
            old(self).wf(),
        ensures
            final(self).wf(),
            final(self).same_but_rows(*old(self)),
            final(self).sections() == Seq::new(
                old(self).ranges@.len(),
                |i: int| old(self).settled(i, comments@, draft_model(draft), now),
            ),
            r.0 == exists|i: int|
                0 <= i < old(self).ranges@.len() && is_folding(
                    #[trigger] old(self).sections()[i],
                    i,
                ) && old(self).fold_of(i).is_animating(now),
            r.1@ == swap_splices(
                old(self).ranges@,
                old(self).sections(),
                final(self).sections(),
                0,
            ),
    {
        let ghost before = *self;
        let ghost shown = draft_model(draft);
        let ghost target = Seq::new(
            self.ranges@.len(),
            |i: int| before.settled(i, comments@, shown, now),
        );
        let mut pending = false;
        let mut splices: Vec<Splice> = Vec::new();
        let mut n: usize = self.ranges.len();
        assert(splices@ =~= swap_splices(before.ranges@, before.sections(), target, n as int));
        while n > 0
            invariant
                self.wf(),
                self.same_but_rows(before),
                before.wf(),
                shown == draft_model(draft),
                self.ranges@.len() == before.ranges@.len(),
                n <= self.ranges@.len(),
                target == Seq::new(
                    before.ranges@.len(),
                    |i: int| before.settled(i, comments@, shown, now),
                ),
                self.sections().len() == before.ranges@.len(),
                forall|i: int| 0 <= i < n ==> #[trigger] self.sections()[i] == before.sections()[i],
                forall|i: int|
                    0 <= i < n ==> (#[trigger] self.ranges@[i]).start == before.ranges@[i].start,
                forall|i: int| n <= i < target.len() ==> #[trigger] self.sections()[i] == target[i],
                pending == exists|i: int|
                    n <= i < before.ranges@.len() && is_folding(
                        #[trigger] before.sections()[i],
                        i,
                    ) && before.fold_of(i).is_animating(now),
                splices@ == swap_splices(before.ranges@, before.sections(), target, n as int),
            decreases n,
        {
            n -= 1;
            let ghost ix = n as int;
            assert(self.sections()[ix] == before.sections()[ix]);
            assert(target[ix] == before.settled(ix, comments@, shown, now));
            if self.folding(n) {
                let fold = get_fold(&self.folds, self.files[n].path.as_str());
                if fold.animating(now) {
                    pending = true;
                    assert(is_folding(before.sections()[ix], ix));
                    proof {
                        lemma_no_splice(before.ranges@[ix].start as int, target[ix].skip(1));
                    }
                } else {
                    let own = if fold.collapsed {
                        Vec::new()
                    } else {
                        file_body(n, &self.files[n], comments, draft)
                    };
                    let ghost mid = *self;
                    let splice = self.replace_file_body(n, own);
                    if let Some(splice) = splice {
                        splices.push(splice);
                    }
                    proof {
                        assert(seq![header(ix)] + own@ =~= target[ix]);
                        assert(target[ix].skip(1) =~= own@);
                        assert(mid.body_of(ix) == before.sections()[ix].skip(1));
                    }
                }
            } else {
                proof {
                    lemma_no_splice(before.ranges@[ix].start as int, target[ix].skip(1));
                }
            }
            assert forall|i: int| n <= i < target.len() implies #[trigger] self.sections()[i]
                == target[i] by {}
        }
        assert(self.sections() =~= target);
        (pending, splices)
    }

    /// The fold of a path.
    pub fn fold(&self, path: &str) -> (r: FileFold)
        ensures
            r == fold_or_open(self.folds@, path@),
    {
        get_fold(&self.folds, path)
    }

    /// Every parsed file currently folded shut?
    pub fn all_collapsed(&self) -> (r: bool)
        ensures
            r == (self.files@.len() > 0 && forall|i: int|
                0 <= i < self.files@.len() ==> (#[trigger] self.fold_of(i)).collapsed),
    {
        for i in 0..self.files.len()
            invariant
                forall|k: int| 0 <= k < i ==> (#[trigger] self.fold_of(k)).collapsed,
        {
            let fold = get_fold(&self.folds, self.files[i].path.as_str());
            assert(fold == self.fold_of(i as int));
            if !fold.collapsed {
                return false;
            }
        }
        self.files.len() > 0
    }

    /// Whether some file of the pane has this path.
    pub open spec fn has_path(self, path: Seq<char>) -> bool {
        exists|i: int| 0 <= i < self.files@.len() && (#[trigger] self.files@[i]).path@ == path
    }

    fn set_all_folds(&mut self, collapse: bool)
        ensures
            final(self).files == old(self).files,
            final(self).rows == old(self).rows,
            final(self).ranges == old(self).ranges,
            final(self).comment_key == old(self).comment_key,
            forall|q: Seq<char>| #[trigger]
                fold_at(final(self).folds@, q) == if old(self).has_path(q) {
                    Some(
                        FileFold {
                            collapsed: collapse,
                            toggled_at: None,
                            epoch: fold_or_open(old(self).folds@, q).epoch,
                        },
                    )
                } else {
                    fold_at(old(self).folds@, q)
                },
    {
        let ghost before = *self;
        let mut i: usize = 0;
        while i < self.files.len()
            invariant
                self.files == before.files,
                self.rows == before.rows,
                self.ranges == before.ranges,
                self.comment_key == before.comment_key,
                i <= self.files@.len(),
                forall|q: Seq<char>| #[trigger]
                    fold_at(self.folds@, q) == if exists|k: int|
                        0 <= k < i && (#[trigger] before.files@[k]).path@ == q {
                        Some(
                            FileFold {
                                collapsed: collapse,
                                toggled_at: None,
                                epoch: fold_or_open(before.folds@, q).epoch,
                            },
                        )
                    } else {
                        fold_at(before.folds@, q)
                    },
            decreases self.files@.len() - i,
        {
            let path = self.files[i].path.clone();
            let fold = get_fold(&self.folds, path.as_str());
            let ghost mid = self.folds@;
            set_fold(
                &mut self.folds,
                path.as_str(),
                FileFold { collapsed: collapse, toggled_at: None, epoch: fold.epoch },
            );
            proof {
                assert(before.files@[i as int].path@ == path@);
                assert(fold_or_open(mid, path@).epoch == fold_or_open(before.folds@, path@).epoch);
                assert forall|q: Seq<char>| #[trigger]
                    fold_at(self.folds@, q) == if exists|k: int|
                        0 <= k < i + 1 && (#[trigger] before.files@[k]).path@ == q {
                        Some(
                            FileFold {
                                collapsed: collapse,
                                toggled_at: None,
                                epoch: fold_or_open(before.folds@, q).epoch,
                            },
                        )
                    } else {
                        fold_at(before.folds@, q)
                    } by {
                    if q != path@ && (exists|k: int|
                        0 <= k < i + 1 && (#[trigger] before.files@[k]).path@ == q) {
                        let k = choose|k: int|
                            0 <= k < i + 1 && (#[trigger] before.files@[k]).path@ == q;
                        assert(k < i);
                    }
                }
            }
            i += 1;
        }
    }

    /// Collapse every file section, or expand them all when everything is
    /// already shut. Steady-state writes — no tween, the whole list just snaps.
    pub fn toggle_collapse_all(
        &mut self,
        comments: &[DiffComment],
        draft: Option<(&str, CommentSide, u32)>,
    ) -> (splices: Vec<Splice>)
        requires
            old(self).wf(),
        ensures
            final(self).wf(),
            final(self).files == old(self).files,
            final(self).comment_key == old(self).comment_key,
            ({
                let shut = old(self).files@.len() > 0 && forall|i: int|
                    0 <= i < old(self).files@.len() ==> (#[trigger] old(self).fold_of(i)).collapsed;
                &&& final(self).sections() == Seq::new(
                    old(self).files@.len(),
                    |i: int|
                        if shut {
                            old(self).open_section(i, comments@, draft_model(draft))
                        } else {
                            seq![header(i)]
                        },
                )
                &&& forall|q: Seq<char>| #[trigger]
                    fold_at(final(self).folds@, q) == if old(self).has_path(q) {
                        Some(
                            FileFold {
                                collapsed: !shut,
                                toggled_at: None,
                                epoch: fold_or_open(old(self).folds@, q).epoch,
                            },
                        )
                    } else {
                        fold_at(old(self).folds@, q)
                    }
            }),
            splices@ == resize_splices(old(self).ranges@, final(self).sections(), 0),
    {
        let collapse = !self.all_collapsed();
        let ghost before = *self;
        self.set_all_folds(collapse);
        let (rows, ranges) = if collapse {
            flatten_rows(self.files.as_slice(), comments, draft, folded)
        } else {
            flatten_rows(self.files.as_slice(), comments, draft, unfolded)
        };
        let ghost models = file_models(self.files@);
        let ghost shown = draft_model(draft);
        proof {
            let flags = choose|flags: Seq<bool>|
                {
                    &&& flags.len() == models.len()
                    &&& forall|i: int| 0 <= i < flags.len() ==> #[trigger] flags[i] == collapse
                    &&& rows@ == #[trigger] flat_rows(
                        models,
                        comments@,
                        shown,
                        flags,
                        models.len(),
                    )
                    &&& spans_of(ranges@, models, comments@, shown, flags)
                };
            crate::rows::law_spans_tile_the_rows(models, comments@, shown, flags, ranges@);
        }
        let ghost target = Seq::new(
            ranges@.len(),
            |i: int| rows@.subrange(ranges@[i].start as int, ranges@[i].end as int),
        );
        let mut splices: Vec<Splice> = Vec::new();
        let mut n: usize = self.ranges.len();
        while n > 0
            invariant
                before.wf(),
                self.ranges@ == before.ranges@,
                tiled(ranges@, rows@.len() as int),
                ranges@.len() == before.ranges@.len(),
                n <= self.ranges@.len(),
                target == Seq::new(
                    ranges@.len(),
                    |i: int| rows@.subrange(ranges@[i].start as int, ranges@[i].end as int),
                ),
                splices@ == resize_splices(before.ranges@, target, n as int),
            decreases n,
        {
            n -= 1;
            proof {
                lemma_tiled_bounds(ranges@, rows@.len() as int, n as int);
                assert(before.ranges@[n as int].start < before.ranges@[n as int].end);
            }
            let new_len: usize = ranges[n].end - ranges[n].start;
            assert(target[n as int].len() == new_len);
            if self.ranges[n].end - self.ranges[n].start != new_len {
                splices.push(
                    Splice {
                        start: self.ranges[n].start + 1,
                        end: self.ranges[n].end,
                        count: new_len - 1,
                    },
                );
            }
        }
        self.rows = rows;
        self.ranges = ranges;
        proof {
            assert(self.sections() =~= target);
            assert(self.sections() =~= Seq::new(
                before.files@.len(),
                |i: int|
                    if !collapse {
                        before.open_section(i, comments@, shown)
                    } else {
                        seq![header(i)]
                    },
            ));
        }
        splices
    }

    /// The section of file `i` with its comment cards brought up to date: a folded file, or one
    /// mid-tween, keeps its rows.
    pub open spec fn recarded(self, i: int, comments: Seq<DiffComment>, draft: DraftModel) -> Seq<
        DiffRow,
    > {
        if self.fold_of(i).collapsed || is_folding(self.sections()[i], i) {
            self.sections()[i]
        } else {
            self.open_section(i, comments, draft)
        }
    }

    /// Bring the comment cards up to date. Nothing happens while the comments and the draft are
    /// the ones that the rows show.
    pub fn sync_comment_rows(
        &mut self,
        comments: &[DiffComment],
        draft: Option<(&str, CommentSide, u32)>,
    ) -> (splices: Vec<Splice>)
        requires
            old(self).wf(),
        ensures
            final(self).wf(),
            final(self).files == old(self).files,
            final(self).folds == old(self).folds,
            final(self).comment_key == hash_of(comment_parts(comments@, draft_model(draft))),
            final(self).comment_key == old(self).comment_key ==> *final(self) == *old(self)
                && splices@.len() == 0,
            final(self).comment_key != old(self).comment_key ==> final(self).sections() == Seq::new(
                old(self).ranges@.len(),
                |i: int| old(self).recarded(i, comments@, draft_model(draft)),
            ),
            splices@ == swap_splices(
                old(self).ranges@,
                old(self).sections(),
                final(self).sections(),
                0,
            ),
    {
        let key = comment_state_key(comments, draft);
        let ghost before = *self;
        let mut splices: Vec<Splice> = Vec::new();
        if key == self.comment_key {
            proof {
                lemma_no_splices(self.ranges@, self.sections(), 0);
            }
            return splices;
        }
        self.comment_key = key;
        let ghost shown = draft_model(draft);
        let ghost target = Seq::new(
            self.ranges@.len(),
            |i: int| before.recarded(i, comments@, shown),
        );
        let mut n: usize = self.ranges.len();
        assert(self.sections() =~= before.sections());
        assert(splices@ =~= swap_splices(before.ranges@, before.sections(), target, n as int));
        while n > 0
            invariant
                self.wf(),
                self.files == before.files,
                self.folds == before.folds,
                self.comment_key == key,
                before.wf(),
                shown == draft_model(draft),
                self.ranges@.len() == before.ranges@.len(),
                n <= self.ranges@.len(),
                target == Seq::new(
                    before.ranges@.len(),
                    |i: int| before.recarded(i, comments@, shown),
                ),
                self.sections().len() == before.ranges@.len(),
                forall|i: int| 0 <= i < n ==> #[trigger] self.sections()[i] == before.sections()[i],
                forall|i: int|
                    0 <= i < n ==> (#[trigger] self.ranges@[i]).start == before.ranges@[i].start,
                forall|i: int| n <= i < target.len() ==> #[trigger] self.sections()[i] == target[i],
                splices@ == swap_splices(before.ranges@, before.sections(), target, n as int),
            decreases n,
        {
            n -= 1;
            let ghost ix = n as int;
            assert(self.sections()[ix] == before.sections()[ix]);
            assert(target[ix] == before.recarded(ix, comments@, shown));
            let fold = get_fold(&self.folds, self.files[n].path.as_str());
            if !fold.collapsed && !self.folding(n) {
                let own = file_body(n, &self.files[n], comments, draft);
                let ghost mid = *self;
                let splice = self.replace_file_body(n, own);
                if let Some(splice) = splice {
                    splices.push(splice);
                }
                proof {
                    assert(seq![header(ix)] + own@ =~= target[ix]);
                    assert(target[ix].skip(1) =~= own@);
                    assert(mid.body_of(ix) == before.sections()[ix].skip(1));
                }
            } else {
                proof {
                    lemma_no_splice(before.ranges@[ix].start as int, target[ix].skip(1));
                }
            }
            assert forall|i: int| n <= i < target.len() implies #[trigger] self.sections()[i]
                == target[i] by {}
        }
        assert(self.sections() =~= target);
        splices
    }
}

proof fn lemma_no_splice(start: int, rows: Seq<DiffRow>)
    ensures
        splice_of(start, rows, rows) is None,
{
}

proof fn lemma_no_splices(ranges: Seq<Range<usize>>, sections: Seq<Seq<DiffRow>>, from: int)
    ensures
        swap_splices(ranges, sections, sections, from).len() == 0,
    decreases ranges.len() - from,
{
    if from < ranges.len() {
        lemma_no_splices(ranges, sections, from + 1);
    }
}

proof fn lemma_tiled_bounds(ranges: Seq<Range<usize>>, total: int, i: int)
    requires
        tiled(ranges, total),
        0 <= i < ranges.len(),
    ensures
        ranges[i].start < ranges[i].end <= total,
{
    if i < ranges.len() - 1 {
        lemma_tiled_order(ranges, total, i, ranges.len() - 1);
        assert(ranges[ranges.len() - 1].start < ranges[ranges.len() - 1].end);
    }
}

/// A splice does what it is for: taking its rows out of the old body and putting as many of the new
/// one in their place gives the new body. It moves no row that both begin or end with, and there is
/// none only where nothing changes. Rows are counted from the header, which is row `start`.
#[verifier::rlimit(60)]
pub proof fn law_splices_turn_old_into_new(start: int, old: Seq<DiffRow>, new: Seq<DiffRow>)
    requires
        0 <= start,
        start + 1 + old.len() <= usize::MAX,
        start + 1 + new.len() <= usize::MAX,
    ensures
        match splice_of(start, old, new) {
            None => old == new,
            Some(s) => {
                let from = s.start - start - 1;
                let upto = s.end - start - 1;
                &&& old != new
                &&& 0 <= from <= upto <= old.len()
                &&& from + s.count <= new.len()
                &&& old.take(from) + new.subrange(from, from + s.count) + old.skip(upto) == new
                &&& from < upto && s.count > 0 ==> old[from] != new[from] && old[upto - 1]
                    != new[from + s.count - 1]
            },
        },
{
    let p = common_prefix(old, new) as int;
    let x = old.skip(p);
    let y = new.skip(p);
    let s = common_suffix(x, y) as int;
    lemma_common_prefix(old, new);
    lemma_common_suffix(x, y);
    lemma_prefix_ends(old, new);
    lemma_suffix_ends(x, y);
    if old != new {
        let upto = old.len() - s;
        let count = new.len() - p - s;
        assert(old.skip(upto) =~= x.skip(x.len() - s));
        assert(new.skip(new.len() - s) =~= y.skip(y.len() - s));
        let built = old.take(p) + new.subrange(p, p + count) + old.skip(upto);
        assert forall|k: int| 0 <= k < new.len() implies built[k] == new[k] by {
            if k < p {
                assert(old.take(p)[k] == new.take(p)[k]);
            } else if k >= p + count {
                assert(built[k] == old.skip(upto)[k - p - count]);
                assert(new[k] == new.skip(new.len() - s)[k - p - count]);
            }
        }
        assert(built =~= new);
        if p < upto && count > 0 {
            assert(x[x.len() - s - 1] == old[upto - 1]);
            assert(y[y.len() - s - 1] == new[p + count - 1]);
        }
    }
}

/// Behind what two bodies begin with in common, they differ.
proof fn lemma_prefix_ends(a: Seq<DiffRow>, b: Seq<DiffRow>)
    ensures
        common_prefix(a, b) < a.len() && common_prefix(a, b) < b.len() ==> a[common_prefix(
            a,
            b,
        ) as int] != b[common_prefix(a, b) as int],
    decreases a.len(),
{
    if a.len() > 0 && b.len() > 0 && a[0] == b[0] {
        lemma_prefix_ends(a.drop_first(), b.drop_first());
    }
}

/// Before what two bodies end with in common, they differ.
proof fn lemma_suffix_ends(a: Seq<DiffRow>, b: Seq<DiffRow>)
    ensures
        common_suffix(a, b) < a.len() && common_suffix(a, b) < b.len() ==> a[a.len() - common_suffix(
            a,
            b,
        ) - 1] != b[b.len() - common_suffix(a, b) - 1],
    decreases a.len(),
{
    if a.len() > 0 && b.len() > 0 && a.last() == b.last() {
        lemma_suffix_ends(a.drop_last(), b.drop_last());
    }
}

/// The last entry of a path says how it is folded; a path without one is open and was never
/// toggled.
pub proof fn law_folds_are_found_by_path(entries: Seq<FoldEntry>, path: Seq<char>)
    ensures
        match fold_at(entries, path) {
            Some(fold) => exists|i: int|
                0 <= i < entries.len() && (#[trigger] entries[i]).path@ == path && entries[i].fold
                    == fold && forall|j: int|
                    i < j < entries.len() ==> (#[trigger] entries[j]).path@ != path,
            None => {
                let fold = fold_or_open(entries, path);
                &&& forall|j: int| 0 <= j < entries.len() ==> (#[trigger] entries[j]).path@ != path
                &&& !fold.collapsed && fold.epoch == 0 && fold.toggled_at is None
            },
        },
    decreases entries.len(),
{
    if entries.len() > 0 {
        let front = entries.drop_last();
        if entries.last().path@ == path {
            assert(entries[entries.len() - 1].path@ == path);
        } else {
            law_folds_are_found_by_path(front, path);
            assert forall|j: int| 0 <= j < front.len() implies #[trigger] entries[j] == front[j] by {}
            if fold_at(front, path) is Some {
                let i = choose|i: int|
                    0 <= i < front.len() && (#[trigger] front[i]).path@ == path && front[i].fold
                        == fold_at(front, path)->0 && forall|j: int|
                        i < j < front.len() ==> (#[trigger] front[j]).path@ != path;
                assert(entries[i].path@ == path);
            }
        }
    }
}

/// A fold moves for less than the tween's window after it was toggled, and never before its first
/// toggle.
pub proof fn law_tweens_end(fold: FileFold, now: u64)
    ensures
        fold.epoch == 0 || fold.toggled_at is None ==> !fold.is_animating(now),
        fold.epoch > 0 && fold.toggled_at is Some ==> (fold.is_animating(now) <==> now
            < fold.toggled_at->0 + 400),
{
}

/// Once a fold's tween has ended, a file that is shut shows its header alone and one that is open
/// its whole body; a fold that is still moving, and one that was settled, is left as it is.
pub proof fn law_settled_folds_are_shut_or_open(
    pane: DiffPane,
    i: int,
    comments: Seq<DiffComment>,
    draft: DraftModel,
    now: u64,
)
    requires
        0 <= i < pane.ranges@.len(),
    ensures
        ({
            let before = pane.sections()[i];
            let after = pane.settled(i, comments, draft, now);
            let moving = before.len() > 1 && before[1] == (DiffRow::FoldingBody { file: i as u32 });
            &&& !moving ==> after == before
            &&& moving && pane.fold_of(i).is_animating(now) ==> after == before
            &&& moving && !pane.fold_of(i).is_animating(now) && pane.fold_of(i).collapsed ==> after
                == seq![DiffRow::FileHeader { file: i as u32 }]
            &&& moving && !pane.fold_of(i).is_animating(now) && !pane.fold_of(i).collapsed ==> after
                == section(i, pane.files@[i]@, comments, draft, false)
        }),
{
}

/// Comment cards are brought up to date in the files that are open; a file that is shut, or that is
/// being folded, keeps its rows.
pub proof fn law_open_files_get_their_cards(
    pane: DiffPane,
    i: int,
    comments: Seq<DiffComment>,
    draft: DraftModel,
)
    requires
        0 <= i < pane.ranges@.len(),
    ensures
        ({
            let before = pane.sections()[i];
            let after = pane.recarded(i, comments, draft);
            let moving = before.len() > 1 && before[1] == (DiffRow::FoldingBody { file: i as u32 });
            &&& pane.fold_of(i).collapsed || moving ==> after == before
            &&& !pane.fold_of(i).collapsed && !moving ==> after == section(
                i,
                pane.files@[i]@,
                comments,
                draft,
                false,
            )
        }),
{
}

/// How many rows the splices add, less those they take out.
pub open spec fn growth(splices: Seq<Splice>) -> int
    decreases splices.len(),
{
    if splices.len() == 0 {
        0
    } else {
        let s = splices.last();
        growth(splices.drop_last()) + s.count - (s.end - s.start)
    }
}

/// How many rows the sections have from `from` on.
pub open spec fn rows_from(sections: Seq<Seq<DiffRow>>, from: int) -> int
    decreases sections.len() - from,
{
    if from >= sections.len() {
        0
    } else {
        sections[from].len() + rows_from(sections, from + 1)
    }
}

/// The spans are those of the sections, and no list of rows is longer than memory.
pub open spec fn spans_fit(
    ranges: Seq<Range<usize>>,
    old: Seq<Seq<DiffRow>>,
    new: Seq<Seq<DiffRow>>,
) -> bool {
    &&& old.len() == ranges.len()
    &&& new.len() == ranges.len()
    &&& forall|i: int|
        0 <= i < ranges.len() ==> (#[trigger] ranges[i]).start + old[i].len() == ranges[i].end
            && ranges[i].start + new[i].len() <= usize::MAX && old[i].len() > 0 && new[i].len() > 0
}

/// The splices of a swap bring the list to the length that its new rows have, and so do those that
/// only resize the bodies.
#[verifier::rlimit(50)]
pub proof fn law_splices_bring_the_list_to_its_length(
    ranges: Seq<Range<usize>>,
    old: Seq<Seq<DiffRow>>,
    new: Seq<Seq<DiffRow>>,
    from: int,
)
    requires
        0 <= from <= ranges.len(),
        spans_fit(ranges, old, new),
    ensures
        rows_from(old, from) + growth(swap_splices(ranges, old, new, from)) == rows_from(new, from),
        rows_from(old, from) + growth(resize_splices(ranges, new, from)) == rows_from(new, from),
    decreases ranges.len() - from,
{
    if from < ranges.len() {
        law_splices_bring_the_list_to_its_length(ranges, old, new, from + 1);
        let range = ranges[from];
        let below = swap_splices(ranges, old, new, from + 1);
        let a = old[from].skip(1);
        let b = new[from].skip(1);
        law_splices_turn_old_into_new(range.start as int, a, b);
        if let Some(s) = splice_of(range.start as int, a, b) {
            let x = s.start - range.start - 1;
            let y = s.end - range.start - 1;
            let built = a.take(x) + b.subrange(x, x + s.count) + a.skip(y);
            assert(built.len() == b.len());
            assert(below.push(s).drop_last() =~= below);
        }
        let resized = resize_splices(ranges, new, from + 1);
        let s = Splice {
            start: (range.start + 1) as usize,
            end: range.end,
            count: (new[from].len() - 1) as usize,
        };
        assert(resized.push(s).drop_last() =~= resized);
    }
}

/// What identifies the comments on show names each of them, in order, and tells drafts apart by their
/// file, their side and their line, and a draft from none.
#[verifier::rlimit(50)]
pub proof fn law_drafts_are_told_apart(
    comments: Seq<DiffComment>,
    one: (Seq<char>, CommentSide, u32),
    other: (Seq<char>, CommentSide, u32),
)
    ensures
        comment_parts(comments, None).len() == comments.len(),
        comment_parts(comments, Some(one)).len() == comments.len() + 1,
        forall|i: int|
            0 <= i < comments.len() ==> #[trigger] comment_parts(comments, Some(one))[i]
                == comments[i].id@ && comment_parts(comments, None)[i] == comments[i].id@,
        comment_parts(comments, Some(one)) == comment_parts(comments, Some(other)) ==> one == other,
{
    let x = comment_parts(comments, Some(one));
    let y = comment_parts(comments, Some(other));
    if x == y {
        let a = decimal(one.2 as nat);
        let b = decimal(other.2 as nat);
        let lead = "draft:"@;
        let s = lead + one.0 + seq![':', one.1.letter(), ':'] + a;
        let t = lead + other.0 + seq![':', other.1.letter(), ':'] + b;
        assert(x.last() == s && y.last() == t);
        let n = s.len() as int;
        crate::text::lemma_decimal(one.2 as nat);
        crate::text::lemma_decimal(other.2 as nat);
        crate::text::law_decimals_are_read_back(one.2 as nat);
        crate::text::law_decimals_are_read_back(other.2 as nat);
        if a.len() < b.len() {
            let k = n - a.len() - 1;
            assert(s[k] == ':');
            assert(t[k] == b[k - (n - b.len())]);
            assert(crate::text::is_digit(b[k - (n - b.len())]));
        } else if b.len() < a.len() {
            let k = n - b.len() - 1;
            assert(t[k] == ':');
            assert(s[k] == a[k - (n - a.len())]);
            assert(crate::text::is_digit(a[k - (n - a.len())]));
        }
        assert(a =~= s.skip(n - a.len()));
        assert(b =~= t.skip(n - b.len()));
        let k = n - a.len() - 2;
        assert(s[k] == one.1.letter());
        assert(t[k] == other.1.letter());
        assert(one.0.len() == other.0.len());
        assert(one.0 =~= s.subrange(lead.len() as int, (lead.len() + one.0.len()) as int));
        assert(other.0 =~= t.subrange(lead.len() as int, (lead.len() + other.0.len()) as int));
    }
}

} // verus!
