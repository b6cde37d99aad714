//! Diff comments: notes pinned to a line of the changes pane, staged on the
//! composer and folded into the next prompt as plain text.
//!
//! [`with_comments`] appends them; [`extract_badge`] reads the same block back
//! out for the transcript. There is no second data model.

use vstd::prelude::*;
use vstd::slice::slice_subrange;

use crate::badges::{details_view, BadgeDetail, BadgeIcon, Detail, MessageBadge};
use crate::ids::{fresh_id, is_uuid_v4};
use crate::text::{
    chars_of, char_from, closed_lines, decimal, find, first_at, is_prefix, join, joined, last_at,
    law_written_lines_are_read_back, lemma_char_from, lemma_first_from, lemma_first_from_unique, lemma_last_at_unique, lemma_rows_push, lemma_trim,
    occurs_at, opt_text, push_decimal, replace_all, replaced, rfind, rows, split_lines, starts_with,
    string_of, strip_prefix, text_lines, trim, trimmed, opt_str,
};

verus! {

#[derive(Debug, Clone, Copy, PartialEq, Eq, Hash, Structural)]
pub enum CommentSide {
    Old,
    New,
}

impl CommentSide {
    /// The letter that stands for a side: `L` for the original file, `R` for the changed one.
    pub open spec fn letter(self) -> char {
        match self {
            CommentSide::Old => 'L',
            CommentSide::New => 'R',
        }
    }

    pub fn tag(self) -> (r: &'static str)
        ensures
            r@ == seq![self.letter()],
    {
        proof {
            reveal_strlit("L");
            reveal_strlit("R");
        }
        let r = match self {
            CommentSide::Old => "L",
            CommentSide::New => "R",
        };
        assert(r@ =~= seq![self.letter()]);
        r
    }
}

#[derive(Debug, Clone, PartialEq, Eq)]
pub struct DiffComment {
    pub id: String,
    /// The diff's own path — post-rename when the file moved. This is the
    /// grouping key the changes pane looks cards up by, NOT necessarily the
    /// path the citation names (see [`DiffComment::cite_path`]).
    pub path: String,
    /// Pre-rename path, when the file moved. `None` otherwise.
    pub old_path: Option<String>,
    pub side: CommentSide,
    pub line: u32,
    pub body: String,
}

impl DiffComment {
    /// The path that a citation of this comment names.
    pub open spec fn cited(self) -> Seq<char> {
        match (self.side, self.old_path) {
            (CommentSide::Old, Some(old)) => old@,
            _ => self.path@,
        }
    }

    /// `path:line`, over the cited path.
    pub open spec fn place(self) -> Seq<char> {
        self.cited().push(':') + decimal(self.line as nat)
    }

    pub fn new(path: &str, side: CommentSide, line: u32, body: &str) -> (r: Self)
        ensures
            is_uuid_v4(r.id@),
            r.path@ == path@,
            r.old_path is None,
            r.side == side,
            r.line == line,
            r.body@ == body@,
    {
        DiffComment {
            id: fresh_id(),
            path: path.to_owned(),
            old_path: None,
            side,
            line,
            body: body.to_owned(),
        }
    }

    /// Tag the comment with the file's pre-rename path so an `Old`-side line
    /// cites where that line actually lives.
    pub fn renamed_from(self, old_path: Option<&str>) -> (r: Self)
        ensures
            r.id == self.id,
            r.path == self.path,
            opt_text(r.old_path) == opt_str(old_path),
            r.side == self.side,
            r.line == self.line,
            r.body == self.body,
    {
        let mut r = self;
        r.old_path = match old_path {
            Some(old) => Some(old.to_owned()),
            None => None,
        };
        r
    }

    pub fn anchor(&self) -> (r: (CommentSide, u32))
        ensures
            r == (self.side, self.line),
    {
        (self.side, self.line)
    }

    /// The path the line number is valid in. An `Old`-side line only exists in
    /// the pre-rename file, so citing `path` there points the agent at a line
    /// of a file that never held it.
    pub fn cite_path(&self) -> (r: &str)
        ensures
            r@ == self.cited(),
    {
        match self.side {
            CommentSide::Old => match &self.old_path {
                Some(old) => old.as_str(),
                None => self.path.as_str(),
            },
            CommentSide::New => self.path.as_str(),
        }
    }

    pub fn location(&self) -> (r: String)
        ensures
            r@ == self.place(),
    {
        let mut r = self.cite_path().to_owned();
        r.push(':');
        push_decimal(&mut r, self.line as u64);
        r
    }
}

pub const COMMENT_ONLY_TEXT: &'static str = "Address the review comments below.";

pub const COMMENT_BLOCK_HEADER: &'static str = "Comments on the diff (each cites the file and line it belongs to; L = line number in the original file, R = in the changed file):";

/// What separates a bullet's location from its body.
pub open spec fn marker(side: CommentSide) -> Seq<char> {
    seq![' ', '(', side.letter(), ')', ':', ' ']
}

fn side_marker(side: CommentSide) -> (r: String)
    ensures
        r@ == marker(side),
{
    let mut r = String::new();
    r.push(' ');
    r.push('(');
    r.push_str(side.tag());
    r.push(')');
    r.push(':');
    r.push(' ');
    assert(r@ =~= marker(side));
    r
}

/// A body as a bullet holds it: trimmed, with its further lines indented by two spaces.
pub open spec fn indented(body: Seq<char>) -> Seq<char> {
    replace_all(trim(body), seq!['\n'], seq!['\n', ' ', ' '])
}

/// The bullet that stands for one comment.
pub open spec fn bullet(c: DiffComment) -> Seq<char> {
    seq!['-', ' '] + c.place() + marker(c.side) + indented(c.body@)
}

pub open spec fn bullets(comments: Seq<DiffComment>) -> Seq<Seq<char>> {
    comments.map_values(|c: DiffComment| bullet(c))
}

/// What opens the block of comments: a blank line, the header and a line feed.
pub open spec fn block_opening() -> Seq<char> {
    seq!['\n', '\n'] + COMMENT_BLOCK_HEADER@ + seq!['\n']
}

/// The text that a prompt's own words become when comments follow.
pub open spec fn prompt_body(text: Seq<char>) -> Seq<char> {
    if text.len() == 0 {
        COMMENT_ONLY_TEXT@
    } else {
        text
    }
}

/// A prompt with the staged comments behind it.
pub open spec fn commented(text: Seq<char>, comments: Seq<DiffComment>) -> Seq<char> {
    if comments.len() == 0 {
        text
    } else {
        prompt_body(text) + block_opening() + join(bullets(comments), seq!['\n'])
    }
}

fn bullet_of(c: &DiffComment) -> (r: Vec<char>)
    ensures
        r@ == bullet(*c),
{
    proof {
        reveal_strlit("\n");
        reveal_strlit("\n  ");
        reveal_strlit("- ");
        assert("\n"@ =~= seq!['\n']);
        assert("\n  "@ =~= seq!['\n', ' ', ' ']);
        assert("- "@ =~= seq!['-', ' ']);
    }
    let raw = chars_of(c.body.as_str());
    let mut body = replaced(trimmed(raw.as_slice()), "\n", "\n  ");
    let mut r = chars_of("- ");
    let mut place = chars_of(c.location().as_str());
    let mut mark = chars_of(side_marker(c.side).as_str());
    r.append(&mut place);
    r.append(&mut mark);
    r.append(&mut body);
    r
}

pub fn with_comments(text: &str, comments: &[DiffComment]) -> (r: String)
    ensures
        r@ == commented(text@, comments@),
{
    if comments.len() == 0 {
        return text.to_owned();
    }
    let mut parts: Vec<Vec<char>> = Vec::new();
    assert(rows(parts@) =~= bullets(comments@.take(0)));
    for i in 0..comments.len()
        invariant
            rows(parts@) == bullets(comments@.take(i as int)),
    {
        let ghost before = parts@;
        let b = bullet_of(&comments[i]);
        parts.push(b);
        proof {
            lemma_rows_push(before, b);
            assert(bullets(comments@.take(i + 1)) =~= bullets(comments@.take(i as int)).push(b@));
        }
    }
    assert(comments@.take(comments@.len() as int) =~= comments@);
    proof {
        reveal_strlit("\n");
        reveal_strlit("\n\n");
        assert("\n"@ =~= seq!['\n']);
        assert("\n\n"@ =~= seq!['\n', '\n']);
    }
    let mut r = if text.is_empty() {
        COMMENT_ONLY_TEXT.to_owned()
    } else {
        text.to_owned()
    };
    r.push_str("\n\n");
    r.push_str(COMMENT_BLOCK_HEADER);
    r.push_str("\n");
    let block = string_of(joined(&parts, "\n").as_slice());
    r.push_str(block.as_str());
    assert(r@ =~= commented(text@, comments@));
    r
}

/// Where a bullet's location ends, and the side its marker names: the earliest marker, since a body
/// may quote one itself.
pub open spec fn marker_in(line: Seq<char>) -> Option<(int, CommentSide)> {
    match (first_at(line, marker(CommentSide::Old)), first_at(line, marker(CommentSide::New))) {
        (Some(old), Some(new)) => if new < old {
            Some((new, CommentSide::New))
        } else {
            Some((old, CommentSide::Old))
        },
        (Some(old), None) => Some((old, CommentSide::Old)),
        (None, Some(new)) => Some((new, CommentSide::New)),
        (None, None) => None,
    }
}

/// The details read so far, after one more line of the block.
pub open spec fn details_after(details: Seq<Detail>, line: Seq<char>) -> Seq<Detail> {
    if is_prefix(seq!['-', ' '], line) {
        let rest = line.skip(2);
        match marker_in(rest) {
            Some((at, side)) => details.push(
                Detail {
                    location: rest.take(at),
                    tag: Some(seq![side.letter()]),
                    body: rest.skip(at + 6),
                },
            ),
            None => details,
        }
    } else if is_prefix(seq![' ', ' '], line) && details.len() > 0 {
        let last = details.last();
        details.update(
            details.len() - 1,
            Detail { body: last.body.push('\n') + line.skip(2), ..last },
        )
    } else {
        details
    }
}

/// The details after all of `lines`, starting from `details`.
pub open spec fn details_from(details: Seq<Detail>, lines: Seq<Seq<char>>) -> Seq<Detail>
    decreases lines.len(),
{
    if lines.len() == 0 {
        details
    } else {
        details_from(details_after(details, lines[0]), lines.drop_first())
    }
}

/// A line that a block of comments may hold.
pub open spec fn is_block_line(line: Seq<char>) -> bool {
    is_prefix(seq!['-', ' '], line) || is_prefix(seq![' ', ' '], line)
}

/// The prompt in front of a trailing block of comments, and the details of the block.
pub open spec fn badge_in(text: Seq<char>) -> Option<(Seq<char>, Seq<Detail>)> {
    match last_at(text, block_opening()) {
        None => None,
        Some(at) => {
            let lines = text_lines(text.skip(at + block_opening().len()));
            let details = details_from(Seq::empty(), lines);
            if lines.len() > 0 && (forall|i: int|
                0 <= i < lines.len() ==> is_block_line(#[trigger] lines[i])) && details.len() > 0 {
                Some((text.take(at), details))
            } else {
                None
            }
        },
    }
}

/// How many comments a chip stands for.
pub open spec fn chip_text(count: nat) -> Seq<char> {
    if count == 1 {
        "1 comment"@
    } else {
        decimal(count) + " comments"@
    }
}

/// [`crate::badges::MessageBadge`] for the comment block. Matched only as a whole
/// trailing block, so a prompt quoting the header mid-body is left alone.
pub fn extract_badge(text: &str) -> (r: Option<(String, MessageBadge)>)
    ensures
        match (r, badge_in(text@)) {
            (Some((prompt, badge)), Some((front, details))) => {
                &&& prompt@ == front
                &&& badge.icon == BadgeIcon::ChatRoundLine
                &&& badge.label@ == chip_text(details.len())
                &&& details_view(badge.details@) == details
            },
            (None, None) => true,
            _ => false,
        },
{
    proof {
        reveal_strlit("\n\n");
        reveal_strlit("- ");
        reveal_strlit("  ");
        assert("\n\n"@ =~= seq!['\n', '\n']);
        assert("- "@ =~= seq!['-', ' ']);
        assert("  "@ =~= seq![' ', ' ']);
    }
    let mut opening = String::new();
    opening.push_str("\n\n");
    opening.push_str(COMMENT_BLOCK_HEADER);
    opening.push('\n');
    assert(opening@ =~= block_opening());
    let opening = chars_of(opening.as_str());
    let chars = chars_of(text);
    let total: usize = chars.len();
    let at: usize = match rfind(chars.as_slice(), opening.as_slice()) {
        Some(at) => at,
        None => {
            return None;
        },
    };
    proof {
        crate::text::lemma_last_upto(text@, block_opening(), text@.len() - block_opening().len());
    }
    let block = slice_subrange(chars.as_slice(), at + opening.len(), total);
    assert(block@ =~= text@.skip(at + block_opening().len()));
    let lines = split_lines(block);
    let ghost spec_lines = text_lines(block@);
    assert(lines@.len() == rows(lines@).len());
    for i in 0..lines.len()
        invariant
            rows(lines@) == spec_lines,
            last_at(text@, block_opening()) == Some(at as int),
            spec_lines == text_lines(text@.skip(at + block_opening().len())),
            "- "@ =~= seq!['-', ' '],
            "  "@ =~= seq![' ', ' '],
            forall|j: int| 0 <= j < i ==> is_block_line(#[trigger] spec_lines[j]),
    {
        assert(spec_lines[i as int] == lines@[i as int]@);
        if !starts_with(lines[i].as_slice(), "- ") && !starts_with(lines[i].as_slice(), "  ") {
            assert(!is_block_line(spec_lines[i as int]));
            return None;
        }
    }
    let details = parse_bullets(&lines);
    if details.len() == 0 {
        return None;
    }
    assert(text@.take(at as int) =~= chars@.subrange(0, at as int));
    let prompt = string_of(slice_subrange(chars.as_slice(), 0, at));
    let label = chip_label(details.len());
    Some((prompt, MessageBadge { icon: BadgeIcon::ChatRoundLine, label, details }))
}

/// The details that the lines of a block hold.
fn parse_bullets(lines: &Vec<Vec<char>>) -> (details: Vec<BadgeDetail>)
    ensures
        details_view(details@) == details_from(Seq::empty(), rows(lines@)),
{
    proof {
        reveal_strlit("- ");
        reveal_strlit("  ");
        assert("- "@ =~= seq!['-', ' ']);
        assert("  "@ =~= seq![' ', ' ']);
    }
    let old_marker = chars_of(side_marker(CommentSide::Old).as_str());
    let new_marker = chars_of(side_marker(CommentSide::New).as_str());
    let mut details: Vec<BadgeDetail> = Vec::new();
    assert(details_view(details@) =~= Seq::empty());
    assert(rows(lines@).skip(0) =~= rows(lines@));
    for i in 0..lines.len()
        invariant
            "- "@ =~= seq!['-', ' '],
            "  "@ =~= seq![' ', ' '],
            old_marker@ == marker(CommentSide::Old),
            new_marker@ == marker(CommentSide::New),
            details_from(Seq::empty(), rows(lines@)) == details_from(
                details_view(details@),
                rows(lines@).skip(i as int),
            ),
    {
        let line = lines[i].as_slice();
        let ghost before = details@;
        proof {
            assert(rows(lines@).skip(i as int)[0] == line@);
            assert(rows(lines@).skip(i as int).drop_first() =~= rows(lines@).skip(i + 1));
        }
        match strip_prefix(line, "- ") {
            Some(rest) => {
                let total: usize = rest.len();
                let old_at = find(rest, old_marker.as_slice());
                let new_at = find(rest, new_marker.as_slice());
                proof {
                    lemma_first_from(rest@, marker(CommentSide::Old), 0);
                    lemma_first_from(rest@, marker(CommentSide::New), 0);
                }
                let split: Option<(usize, CommentSide)> = match (old_at, new_at) {
                    (Some(old), Some(new)) => if new < old {
                        Some((new, CommentSide::New))
                    } else {
                        Some((old, CommentSide::Old))
                    },
                    (Some(old), None) => Some((old, CommentSide::Old)),
                    (None, Some(new)) => Some((new, CommentSide::New)),
                    (None, None) => None,
                };
                match split {
                    Some((at, side)) => {
                        let detail = BadgeDetail {
                            location: string_of(slice_subrange(rest, 0, at)),
                            tag: Some(side.tag().to_owned()),
                            body: string_of(slice_subrange(rest, at + 6, total)),
                        };
                        details.push(detail);
                        proof {
                            assert(rest@.subrange(0, at as int) =~= rest@.take(at as int));
                            assert(rest@.subrange(at + 6, total as int) =~= rest@.skip(at + 6));
                            assert(details_view(details@) =~= details_view(before).push(detail@));
                        }
                    },
                    None => {},
                }
            },
            None => {
                if let Some(rest) = strip_prefix(line, "  ") {
                    if let Some(last) = details.pop() {
                        let ghost old_last = last@;
                        let mut last = last;
                        let more = string_of(rest);
                        last.body.push('\n');
                        last.body.push_str(more.as_str());
                        details.push(last);
                        proof {
                            assert(details_view(details@) =~= details_view(before).update(
                                before.len() - 1,
                                last@,
                            ));
                            assert(details_view(before).last() == old_last);
                        }
                    } else {
                        assert(details_view(details@) =~= details_view(before));
                    }
                }
            },
        }
        assert(details_view(details@) == details_after(details_view(before), line@));
    }
    assert(rows(lines@).skip(lines@.len() as int) =~= Seq::empty());
    details
}

pub fn chip_label(count: usize) -> (r: String)
    ensures
        r@ == chip_text(count as nat),
{
    if count == 1 {
        "1 comment".to_owned()
    } else {
        let mut r = String::new();
        push_decimal(&mut r, count as u64);
        r.push_str(" comments");
        assert(r@ =~= chip_text(count as nat));
        r
    }
}

pub const CARD_WRAP_COLUMNS: usize = 64;

pub const CARD_MAX_LINES: usize = 8;

/// How many rows a line takes when it wraps at the card's width; an empty line takes one.
pub open spec fn wrapped_rows(line: Seq<char>) -> nat {
    if line.len() == 0 {
        1
    } else {
        ((line.len() + 63) / 64) as nat
    }
}

/// The rows that all lines take together.
pub open spec fn total_rows(lines: Seq<Seq<char>>) -> nat
    decreases lines.len(),
{
    if lines.len() == 0 {
        0
    } else {
        total_rows(lines.drop_last()) + wrapped_rows(lines.last())
    }
}

/// A card shows at least one row of its body and at most eight.
pub open spec fn card_rows(body: Seq<char>) -> nat {
    let n = total_rows(text_lines(body));
    if n < 1 {
        1
    } else if n > 8 {
        8
    } else {
        n
    }
}

/// Wraps are guessed, not measured: the changes pane sizes bodies by arithmetic
/// to drive the fold tween, and a measured card would desync it.
pub fn card_body_lines(body: &str) -> (r: usize)
    ensures
        r == card_rows(body@),
{
    let chars = chars_of(body);
    let lines = split_lines(chars.as_slice());
    let mut sum: usize = 0;
    for i in 0..lines.len()
        invariant
            sum <= CARD_MAX_LINES,
            sum == if total_rows(rows(lines@).take(i as int)) > CARD_MAX_LINES {
                CARD_MAX_LINES as nat
            } else {
                total_rows(rows(lines@).take(i as int))
            },
    {
        let width: usize = lines[i].len();
        let full: usize = width / CARD_WRAP_COLUMNS;
        let part: usize = if width % CARD_WRAP_COLUMNS > 0 || width == 0 {
            1
        } else {
            0
        };
        proof {
            let taken = rows(lines@).take(i + 1);
            assert(taken.drop_last() =~= rows(lines@).take(i as int));
            assert(taken.last() == lines@[i as int]@);
            assert(wrapped_rows(taken.last()) == full + part);
        }
        if full + part > CARD_MAX_LINES - sum {
            sum = CARD_MAX_LINES;
        } else {
            sum = sum + full + part;
        }
    }
    assert(rows(lines@).take(lines@.len() as int) =~= rows(lines@));
    if sum < 1 {
        1
    } else {
        sum
    }
}

// ---------------------------------------------------------------------------
// What extraction gives back
// ---------------------------------------------------------------------------

/// No carriage return stands right before a line feed.
pub open spec fn no_crlf(s: Seq<char>) -> bool {
    forall|i: int| 0 <= i < s.len() - 1 && #[trigger] s[i] == '\r' ==> s[i + 1] != '\n'
}

/// A comment whose bullet can be read back: its cited path is one line that holds no side marker,
/// and its body has no carriage return before a line feed.
pub open spec fn readable(c: DiffComment) -> bool {
    &&& forall|i: int| 0 <= i < c.cited().len() ==> #[trigger] c.cited()[i] != '\n'
    &&& first_at(c.cited(), marker(CommentSide::Old)) is None
    &&& first_at(c.cited(), marker(CommentSide::New)) is None
    &&& no_crlf(trim(c.body@))
}

/// What a comment's badge detail shows.
pub open spec fn detail(c: DiffComment) -> Detail {
    Detail { location: c.place(), tag: Some(seq![c.side.letter()]), body: trim(c.body@) }
}

/// Each line feed is followed by something that is not one.
spec fn single_feeds(s: Seq<char>) -> bool {
    forall|i: int|
        0 <= i < s.len() && #[trigger] s[i] == '\n' ==> i + 1 < s.len() && s[i + 1] != '\n'
}

spec fn all_block_lines(lines: Seq<Seq<char>>) -> bool {
    forall|i: int| 0 <= i < lines.len() ==> is_block_line(#[trigger] lines[i])
}

/// Further lines of a body, as a bullet holds them.
spec fn indent(s: Seq<char>) -> Seq<char> {
    replace_all(s, seq!['\n'], seq!['\n', ' ', ' '])
}

proof fn lemma_indent(s: Seq<char>)
    ensures
        ({
            let i = char_from(s, '\n', 0);
            &&& 0 <= i <= s.len()
            &&& forall|j: int| 0 <= j < i ==> s[j] != '\n'
            &&& i < s.len() ==> s[i] == '\n' && indent(s) == s.take(i) + seq!['\n', ' ', ' ']
                + indent(s.skip(i + 1))
            &&& i == s.len() ==> indent(s) == s
        }),
{
    crate::text::lemma_first_char(s, '\n');
    lemma_char_from(s, '\n', 0);
}

proof fn lemma_indent_feeds(s: Seq<char>)
    requires
        s.len() > 0 ==> s.last() != '\n',
    ensures
        single_feeds(indent(s)),
        s.len() > 0 ==> indent(s).len() > 0 && indent(s).last() == s.last(),
        s.len() == 0 ==> indent(s).len() == 0,
    decreases s.len(),
{
    let i = char_from(s, '\n', 0);
    lemma_indent(s);
    if i < s.len() {
        lemma_indent_feeds(s.skip(i + 1));
    }
}

proof fn lemma_details_concat(d: Seq<Detail>, a: Seq<Seq<char>>, b: Seq<Seq<char>>)
    ensures
        details_from(d, a + b) == details_from(details_from(d, a), b),
    decreases a.len(),
{
    if a.len() == 0 {
        assert(a + b =~= b);
    } else {
        assert((a + b)[0] == a[0]);
        assert((a + b).drop_first() =~= a.drop_first() + b);
        lemma_details_concat(details_after(d, a[0]), a.drop_first(), b);
    }
}

proof fn lemma_details_one(d: Seq<Detail>, line: Seq<char>)
    ensures
        details_from(d, seq![line]) == details_after(d, line),
{
    assert(seq![line].drop_first() =~= Seq::<Seq<char>>::empty());
    assert(details_from(details_after(d, line), Seq::empty()) == details_after(d, line));
}

/// Indented lines extend the body of the last detail.
proof fn lemma_read_indented(d: Seq<Detail>, s: Seq<char>)
    requires
        d.len() > 0,
        s.len() > 0,
        s.last() != '\n',
        s.last() != '\r',
        no_crlf(s),
    ensures
        ({
            let lines = text_lines((seq![' ', ' '] + indent(s)).push('\n'));
            &&& all_block_lines(lines)
            &&& details_from(d, lines) == d.update(
                d.len() - 1,
                Detail { body: d.last().body.push('\n') + s, ..d.last() },
            )
        }),
    decreases s.len(),
{
    let pad = seq![' ', ' '];
    let i = char_from(s, '\n', 0);
    lemma_indent(s);
    let first = pad + s.take(i);
    assert(first.skip(2) =~= s.take(i));
    assert(first.subrange(0, 2) =~= pad);
    assert(!is_prefix(seq!['-', ' '], first)) by {
        assert(first.subrange(0, 2)[0] == ' ');
    }
    assert(first.last() != '\r') by {
        if i > 0 {
            assert(first.last() == s[i - 1]);
        }
    }
    lemma_one_line_of(first);
    let d1 = details_after(d, first);
    assert(d1 == d.update(
        d.len() - 1,
        Detail { body: d.last().body.push('\n') + s.take(i), ..d.last() },
    ));
    lemma_details_one(d, first);
    let all = (pad + indent(s)).push('\n');
    if i == s.len() {
        assert(s.take(i) =~= s);
        assert(all =~= first.push('\n'));
    } else {
        let rest = s.skip(i + 1);
        assert(rest.last() == s.last());
        assert(no_crlf(rest)) by {
            assert forall|k: int| 0 <= k < rest.len() - 1 && #[trigger] rest[k]
                == '\r' implies rest[k + 1] != '\n' by {
                assert(s[k + i + 1] == rest[k]);
                assert(s[k + i + 2] == rest[k + 1]);
            }
        }
        let tail = (pad + indent(rest)).push('\n');
        assert(all =~= first.push('\n') + tail);
        crate::text::lemma_lines_concat(first.push('\n'), tail);
        lemma_read_indented(d1, rest);
        lemma_details_concat(d, seq![first], text_lines(tail));
        assert(d.last().body.push('\n') + s.take(i) + seq!['\n'] + rest =~= d.last().body.push(
            '\n',
        ) + s);
        assert((d.last().body.push('\n') + s.take(i)).push('\n') + rest =~= d.last().body.push('\n')
            + s);
        let d2 = details_from(d1, text_lines(tail));
        assert(d2 =~= d.update(
            d.len() - 1,
            Detail { body: d.last().body.push('\n') + s, ..d.last() },
        ));
    }
}

proof fn lemma_one_line_of(x: Seq<char>)
    requires
        forall|j: int| 0 <= j < x.len() ==> x[j] != '\n',
        x.len() > 0 ==> x.last() != '\r',
    ensures
        text_lines(x.push('\n')) == seq![x],
{
    crate::text::lemma_one_line(x);
}

/// A location that holds no marker ends where the marker behind it begins.
proof fn lemma_marker_in(c: DiffComment, x: Seq<char>)
    requires
        readable(c),
    ensures
        marker_in(c.place() + marker(c.side) + x) == Some((c.place().len() as int, c.side)),
{
    let n = c.place().len() as int;
    let k = c.cited().len() as int;
    let s = c.place() + marker(c.side) + x;
    let other = match c.side {
        CommentSide::Old => CommentSide::New,
        CommentSide::New => CommentSide::Old,
    };
    crate::text::lemma_decimal(c.line as nat);
    assert(s.subrange(n, n + 6) =~= marker(c.side));
    assert forall|m: CommentSide, j: int| 0 <= j < n implies !#[trigger] occurs_at(
        s,
        marker(m),
        j,
    ) by {
        if occurs_at(s, marker(m), j) {
            let w = s.subrange(j, j + 6);
            assert(w == marker(m));
            if j + 6 <= k {
                assert(c.cited().subrange(j, j + 6) =~= w);
                lemma_first_from(c.cited(), marker(m), 0);
                assert(occurs_at(c.cited(), marker(m), j));
            } else if j <= k {
                assert(w[k - j] == s[k]);
                assert(s[k] == ':');
                assert(k - j == 4);
                assert(w[5] == s[k + 1]);
                assert(s[k + 1] == decimal(c.line as nat)[0]);
            } else {
                assert(w[0] == s[j]);
                assert(s[j] == decimal(c.line as nat)[j - k - 1]);
            }
        }
    }
    assert(!occurs_at(s, marker(other), n)) by {
        if occurs_at(s, marker(other), n) {
            assert(s.subrange(n, n + 6)[2] == marker(other)[2]);
        }
    }
    assert(occurs_at(s, marker(c.side), n));
    lemma_first_from_unique(s, marker(c.side), 0, n);
    lemma_first_from(s, marker(other), 0);
}

/// The lines of one bullet give the comment's own detail.
proof fn lemma_read_bullet(d: Seq<Detail>, c: DiffComment)
    requires
        readable(c),
    ensures
        all_block_lines(text_lines(bullet(c).push('\n'))),
        details_from(d, text_lines(bullet(c).push('\n'))) == d.push(detail(c)),
{
    let t = trim(c.body@);
    lemma_trim(c.body@);
    let head = seq!['-', ' '] + c.place() + marker(c.side);
    let i = char_from(t, '\n', 0);
    lemma_indent(t);
    let first = head + t.take(i);
    crate::text::lemma_decimal(c.line as nat);
    assert(first.subrange(0, 2) =~= seq!['-', ' ']);
    assert(first.skip(2) =~= c.place() + marker(c.side) + t.take(i));
    assert forall|j: int| 0 <= j < first.len() implies first[j] != '\n' by {
        if 2 <= j < 2 + c.cited().len() {
            assert(first[j] == c.cited()[j - 2]);
        } else if 2 + c.cited().len() < j < 2 + c.place().len() {
            assert(first[j] == decimal(c.line as nat)[j - 3 - c.cited().len()]);
        } else if j >= head.len() {
            assert(first[j] == t[j - head.len()]);
        }
    }
    assert(first.last() != '\r') by {
        if i > 0 {
            assert(first.last() == t[i - 1]);
        }
    }
    lemma_one_line_of(first);
    lemma_marker_in(c, t.take(i));
    let rest = first.skip(2);
    assert(rest.take(c.place().len() as int) =~= c.place());
    assert(rest.skip(c.place().len() as int + 6) =~= t.take(i));
    let d1 = details_after(d, first);
    assert(d1 == d.push(Detail { body: t.take(i), ..detail(c) }));
    lemma_details_one(d, first);
    if i == t.len() {
        assert(t.take(i) =~= t);
        assert(bullet(c) =~= first);
    } else {
        let more = t.skip(i + 1);
        assert(more.len() > 0);
        assert(more.last() == t.last());
        assert(no_crlf(more)) by {
            assert forall|k: int| 0 <= k < more.len() - 1 && #[trigger] more[k]
                == '\r' implies more[k + 1] != '\n' by {
                assert(t[k + i + 1] == more[k]);
                assert(t[k + i + 2] == more[k + 1]);
            }
        }
        let tail = (seq![' ', ' '] + indent(more)).push('\n');
        assert(bullet(c).push('\n') =~= first.push('\n') + tail);
        crate::text::lemma_lines_concat(first.push('\n'), tail);
        lemma_read_indented(d1, more);
        lemma_details_concat(d, seq![first], text_lines(tail));
        assert(t.take(i).push('\n') + more =~= t);
        assert(details_from(d1, text_lines(tail)) =~= d.push(detail(c)));
    }
}

proof fn lemma_read_block(comments: Seq<DiffComment>)
    requires
        comments.len() > 0,
        forall|i: int| 0 <= i < comments.len() ==> readable(#[trigger] comments[i]),
    ensures
        ({
            let block = join(bullets(comments), seq!['\n']);
            let lines = text_lines(block.push('\n'));
            &&& all_block_lines(lines)
            &&& details_from(Seq::empty(), lines) == comments.map_values(|c: DiffComment| detail(c))
            &&& block.len() > 0
            &&& block[0] == '-'
            &&& block.last() != '\n'
            &&& block.last() != '\r'
            &&& single_feeds(block)
        }),
    decreases comments.len(),
{
    let sep = seq!['\n'];
    let parts = bullets(comments);
    let block = join(parts, sep);
    let c = comments.last();
    let front = comments.drop_last();
    assert(parts.drop_last() =~= bullets(front));
    assert(parts.last() == bullet(c));
    let t = trim(c.body@);
    lemma_trim(c.body@);
    lemma_indent_feeds(t);
    crate::text::lemma_decimal(c.line as nat);
    let head = seq!['-', ' '] + c.place() + marker(c.side);
    assert forall|j: int| 0 <= j < head.len() implies head[j] != '\n' by {
        if 2 <= j < 2 + c.cited().len() {
            assert(head[j] == c.cited()[j - 2]);
        } else if 2 + c.cited().len() < j < 2 + c.place().len() {
            assert(head[j] == decimal(c.line as nat)[j - 3 - c.cited().len()]);
        }
    }
    assert(bullet(c) =~= head + indent(t));
    assert(single_feeds(bullet(c)));
    assert(bullet(c)[0] == '-');
    let d0 = Seq::<Detail>::empty();
    if comments.len() == 1 {
        assert(block == bullet(c));
        lemma_read_bullet(d0, c);
        assert(d0.push(detail(c)) =~= comments.map_values(|c: DiffComment| detail(c)));
    } else {
        lemma_read_block(front);
        let fore = join(bullets(front), sep);
        let d1 = front.map_values(|c: DiffComment| detail(c));
        lemma_read_bullet(d1, c);
        assert(block == fore + sep + bullet(c));
        assert(block.push('\n') =~= fore.push('\n') + bullet(c).push('\n'));
        crate::text::lemma_lines_concat(fore.push('\n'), bullet(c).push('\n'));
        lemma_details_concat(d0, text_lines(fore.push('\n')), text_lines(bullet(c).push('\n')));
        assert(d1.push(detail(c)) =~= comments.map_values(|c: DiffComment| detail(c)));
    }
}

/// Reading a prompt's badge gives back the prompt and every comment that was appended to it, in
/// order: the location, the side and the trimmed body.
pub proof fn law_badge_gives_back_comments(text: Seq<char>, comments: Seq<DiffComment>)
    requires
        comments.len() > 0,
        forall|i: int| 0 <= i < comments.len() ==> readable(#[trigger] comments[i]),
    ensures
        badge_in(commented(text, comments)) == Some(
            (prompt_body(text), comments.map_values(|c: DiffComment| detail(c))),
        ),
{
    let prompt = prompt_body(text);
    let open = block_opening();
    let block = join(bullets(comments), seq!['\n']);
    let s = commented(text, comments);
    let n = prompt.len() as int;
    lemma_read_block(comments);
    reveal_strlit(
        "Comments on the diff (each cites the file and line it belongs to; L = line number in the original file, R = in the changed file):",
    );
    assert(forall|j: int|
        0 <= j < COMMENT_BLOCK_HEADER@.len() ==> COMMENT_BLOCK_HEADER@[j] != '\n');
    assert(COMMENT_BLOCK_HEADER@.len() > 0);
    assert(s.subrange(n, n + open.len()) =~= open);
    assert forall|j: int| n < j implies !#[trigger] occurs_at(s, open, j) by {
        if occurs_at(s, open, j) {
            let w = s.subrange(j, j + open.len());
            assert(w[0] == s[j] && w[1] == s[j + 1]);
            assert(open[0] == '\n' && open[1] == '\n');
            let h = COMMENT_BLOCK_HEADER@.len() as int;
            if j == n + 1 {
                assert(s[j + 1] == COMMENT_BLOCK_HEADER@[0]);
            } else if j < n + 2 + h {
                assert(s[j] == COMMENT_BLOCK_HEADER@[j - n - 2]);
            } else if j == n + 2 + h {
                assert(s[j + 1] == block[0]);
            } else {
                assert(s[j] == block[j - n - 3 - h]);
                assert(s[j + 1] == block[j + 1 - n - 3 - h]);
            }
        }
    }
    lemma_last_at_unique(s, open, n);
    assert(s.skip(n + open.len()) =~= block);
    assert(s.take(n) =~= prompt);
    crate::text::lemma_lines_closed(block);
}

/// A comment cites the file that holds its line: one on the original side names the path from before
/// a rename, where there was one, and any other the path as it is now; the line's number follows.
pub proof fn law_comments_cite_where_their_line_lives(c: DiffComment)
    ensures
        c.side == CommentSide::New ==> c.place() == c.path@ + seq![':'] + decimal(c.line as nat),
        c.side == CommentSide::Old && c.old_path is None ==> c.place() == c.path@ + seq![':']
            + decimal(c.line as nat),
        c.side == CommentSide::Old && c.old_path is Some ==> c.place() == (c.old_path->0)@ + seq![
            ':',
        ] + decimal(c.line as nat),
        c.side == CommentSide::Old ==> c.side.letter() == 'L',
        c.side == CommentSide::New ==> c.side.letter() == 'R',
{
    assert(c.place() =~= c.cited() + seq![':'] + decimal(c.line as nat));
}

/// What was typed stays in front: without comments a prompt is what was typed, and with comments it
/// begins with it, or asks for them to be addressed where nothing was typed.
pub proof fn law_prompts_begin_with_what_was_typed(text: Seq<char>, comments: Seq<DiffComment>)
    ensures
        comments.len() == 0 ==> commented(text, comments) == text,
        comments.len() > 0 && text.len() > 0 ==> commented(text, comments).take(text.len() as int)
            == text,
        comments.len() > 0 && text.len() == 0 ==> commented(text, comments).take(
            "Address the review comments below."@.len() as int,
        ) == "Address the review comments below."@,
{
    let all = commented(text, comments);
    let start = prompt_body(text);
    if comments.len() > 0 {
        assert(all.take(start.len() as int) =~= start);
    }
}

/// A line takes as many rows of a card as it needs, and no more: they hold it, and one fewer would
/// not.
pub proof fn law_cards_wrap_lines(line: Seq<char>)
    ensures
        wrapped_rows(line) >= 1,
        line.len() <= 64 * wrapped_rows(line),
        wrapped_rows(line) > 1 ==> line.len() > 64 * (wrapped_rows(line) - 1),
{
}

/// A card has a row at least and eight at most, and between these one for each that its lines take.
pub proof fn law_cards_have_the_rows_of_their_lines(lines: Seq<Seq<char>>)
    requires
        forall|k: int, j: int|
            0 <= k < lines.len() && 0 <= j < lines[k].len() ==> (#[trigger] lines[k][j]) != '\n',
        forall|k: int|
            0 <= k < lines.len() && (#[trigger] lines[k]).len() > 0 ==> lines[k].last() != '\r',
    ensures
        ({
            let rows = card_rows(closed_lines(lines));
            &&& 1 <= rows <= 8
            &&& total_rows(lines) <= 8 && lines.len() > 0 ==> rows == total_rows(lines)
            &&& total_rows(lines) >= 8 ==> rows == 8
            &&& total_rows(lines) >= lines.len()
        }),
    decreases lines.len(),
{
    law_written_lines_are_read_back(lines);
    lemma_a_row_each(lines);
}

proof fn lemma_a_row_each(lines: Seq<Seq<char>>)
    ensures
        total_rows(lines) >= lines.len(),
    decreases lines.len(),
{
    if lines.len() > 0 {
        lemma_a_row_each(lines.drop_last());
    }
}

/// A chip says how many comments it stands for, and counts a single one as one.
pub proof fn law_chips_count_their_comments(count: nat)
    ensures
        count != 1 ==> chip_text(count) == decimal(count) + " comments"@,
        count == 1 ==> chip_text(count) == decimal(count) + " comment"@,
{
    if count == 1 {
        reveal_strlit("1 comment");
        reveal_strlit(" comment");
        assert(crate::text::digit(1) == '1');
        assert(chip_text(count) =~= decimal(count) + " comment"@);
    }
}

} // verus!
