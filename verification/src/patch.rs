//! Unified git patches: the model of a file's changes and the parser that fills it.
//!
//! The parser is tolerant: unknown header lines are skipped and truncated hunks keep what parsed so
//! far. Line numbers and counts are 32-bit and wrap around.

use vstd::prelude::*;
use vstd::slice::{slice_subrange, slice_to_vec};

use crate::comments::CommentSide;
use crate::text::{
    char_from, chars_of, decimal, find_char, is_prefix, is_space, last_at,
    law_decimals_are_read_back, law_trimming_takes_the_blanks_around, opt_text, parse_u32,
    push_decimal, replace_all, replaced, rfind, rows, same, space, spells, split_lines, starts_with,
    string_of, strip_prefix, text_lines, texts, trim, trimmed, u32_of,
};

verus! {

#[derive(Debug, Clone, Copy, PartialEq, Eq, Structural)]
pub enum LineKind {
    Context,
    Add,
    Del,
    /// `\ No newline at end of file` and friends.
    Meta,
}

#[derive(Debug, Clone, PartialEq)]
pub struct DiffLine {
    pub kind: LineKind,
    pub old_no: Option<u32>,
    pub new_no: Option<u32>,
    pub text: String,
}

#[derive(Debug, Clone, PartialEq)]
pub struct Hunk {
    pub header: String,
    pub lines: Vec<DiffLine>,
}

#[derive(Debug, Clone, Copy, PartialEq, Eq, Structural)]
pub enum FileStatus {
    Added,
    Deleted,
    Modified,
    Renamed,
}

#[derive(Debug, Clone, PartialEq)]
pub struct FileDiff {
    /// Display path (the post-change side).
    pub path: String,
    /// Pre-rename path, when different.
    pub old_path: Option<String>,
    pub status: FileStatus,
    pub binary: bool,
    /// Parser-collected notices (mode changes etc.).
    pub notices: Vec<String>,
    pub hunks: Vec<Hunk>,
    pub additions: u32,
    pub deletions: u32,
    /// Largest line number on either side — sizes the gutters analytically.
    pub max_line: u32,
}

/// What a [`DiffLine`] says.
#[verifier::ext_equal]
pub struct LineModel {
    pub kind: LineKind,
    pub old_no: Option<u32>,
    pub new_no: Option<u32>,
    pub text: Seq<char>,
}

/// What a [`Hunk`] says.
#[verifier::ext_equal]
pub struct HunkModel {
    pub header: Seq<char>,
    pub lines: Seq<LineModel>,
}

/// What a [`FileDiff`] says.
#[verifier::ext_equal]
pub struct FileModel {
    pub path: Seq<char>,
    pub old_path: Option<Seq<char>>,
    pub status: FileStatus,
    pub binary: bool,
    pub notices: Seq<Seq<char>>,
    pub hunks: Seq<HunkModel>,
    pub additions: u32,
    pub deletions: u32,
    pub max_line: u32,
}

impl View for DiffLine {
    type V = LineModel;

    open spec fn view(&self) -> LineModel {
        LineModel {
            kind: self.kind,
            old_no: self.old_no,
            new_no: self.new_no,
            text: self.text@,
        }
    }
}

pub open spec fn line_models(v: Seq<DiffLine>) -> Seq<LineModel> {
    v.map_values(|l: DiffLine| l@)
}

impl View for Hunk {
    type V = HunkModel;

    open spec fn view(&self) -> HunkModel {
        HunkModel { header: self.header@, lines: line_models(self.lines@) }
    }
}

pub open spec fn hunk_models(v: Seq<Hunk>) -> Seq<HunkModel> {
    v.map_values(|h: Hunk| h@)
}

impl View for FileDiff {
    type V = FileModel;

    open spec fn view(&self) -> FileModel {
        FileModel {
            path: self.path@,
            old_path: opt_text(self.old_path),
            status: self.status,
            binary: self.binary,
            notices: texts(self.notices@),
            hunks: hunk_models(self.hunks@),
            additions: self.additions,
            deletions: self.deletions,
            max_line: self.max_line,
        }
    }
}

pub open spec fn file_models(v: Seq<FileDiff>) -> Seq<FileModel> {
    v.map_values(|f: FileDiff| f@)
}

/// A file section before any of its lines is read.
pub open spec fn fresh_file(path: Seq<char>, old_path: Option<Seq<char>>) -> FileModel {
    FileModel {
        path,
        old_path,
        status: FileStatus::Modified,
        binary: false,
        notices: Seq::empty(),
        hunks: Seq::empty(),
        additions: 0,
        deletions: 0,
        max_line: 0,
    }
}

impl FileDiff {
    fn new(path: String, old_path: Option<String>) -> (r: Self)
        ensures
            r@ == fresh_file(path@, opt_text(old_path)),
    {
        let r = FileDiff {
            path,
            old_path,
            status: FileStatus::Modified,
            binary: false,
            notices: Vec::new(),
            hunks: Vec::new(),
            additions: 0,
            deletions: 0,
            max_line: 0,
        };
        assert(r@ =~= fresh_file(path@, opt_text(old_path)));
        r
    }
}

// ---------------------------------------------------------------------------
// Paths and hunk headers
// ---------------------------------------------------------------------------

/// A path without git's `a/` or `b/` in front.
pub open spec fn without_side(path: Seq<char>) -> Seq<char> {
    if is_prefix("a/"@, path) || is_prefix("b/"@, path) {
        path.skip(2)
    } else {
        path
    }
}

fn strip_git_prefix<'a>(path: &'a [char]) -> (r: &'a [char])
    ensures
        r@ == without_side(path@),
{
    proof {
        reveal_strlit("a/");
        reveal_strlit("b/");
    }
    match strip_prefix(path, "a/") {
        Some(rest) => rest,
        None => match strip_prefix(path, "b/") {
            Some(rest) => rest,
            None => path,
        },
    }
}

/// A path as git prints it, without its quotes and escapes.
pub open spec fn unquoted(s: Seq<char>) -> Seq<char> {
    let t = trim(s);
    if t.len() >= 2 && t[0] == '"' && t.last() == '"' {
        replace_all(
            replace_all(t.subrange(1, t.len() - 1), "\\\""@, "\""@),
            "\\\\"@,
            "\\"@,
        )
    } else {
        t
    }
}

fn unquote(s: &[char]) -> (r: Vec<char>)
    ensures
        r@ == unquoted(s@),
{
    proof {
        reveal_strlit("\\\"");
        reveal_strlit("\\\\");
    }
    let t = trimmed(s);
    let n: usize = t.len();
    if n >= 2 && t[0] == '"' && t[n - 1] == '"' {
        let inner = replaced(slice_subrange(t, 1, n - 1), "\\\"", "\"");
        replaced(inner.as_slice(), "\\\\", "\\")
    } else {
        slice_to_vec(t)
    }
}

/// Where the new side's path begins in the tail of a `diff --git` line: behind the last ` b/`, or
/// else behind the last ` "b/`.
pub open spec fn paths_split(rest: Seq<char>) -> Option<int> {
    match last_at(rest, " b/"@) {
        Some(at) => Some(at),
        None => last_at(rest, " \"b/"@),
    }
}

/// The old and new paths in the tail of a `diff --git` line.
pub open spec fn git_paths(rest: Seq<char>) -> (Seq<char>, Seq<char>) {
    match paths_split(rest) {
        Some(at) => (
            without_side(unquoted(rest.take(at))),
            without_side(unquoted(rest.skip(at + 1))),
        ),
        None => (without_side(unquoted(rest)), without_side(unquoted(rest))),
    }
}

fn split_git_paths(rest: &[char]) -> (r: (Vec<char>, Vec<char>))
    ensures
        (r.0@, r.1@) == git_paths(rest@),
{
    let plain = chars_of(" b/");
    let quoted = chars_of(" \"b/");
    let total: usize = rest.len();
    let at = match rfind(rest, plain.as_slice()) {
        Some(at) => Some(at),
        None => rfind(rest, quoted.as_slice()),
    };
    match at {
        Some(at) => {
            proof {
                reveal_strlit(" b/");
                reveal_strlit(" \"b/");
                crate::text::lemma_last_upto(rest@, " b/"@, rest@.len() - " b/"@.len());
                crate::text::lemma_last_upto(rest@, " \"b/"@, rest@.len() - " \"b/"@.len());
                assert(rest@.subrange(0, at as int) =~= rest@.take(at as int));
                assert(rest@.subrange(at + 1, total as int) =~= rest@.skip(at + 1));
            }
            let old = unquote(slice_subrange(rest, 0, at));
            let new = unquote(slice_subrange(rest, at + 1, total));
            (
                slice_to_vec(strip_git_prefix(old.as_slice())),
                slice_to_vec(strip_git_prefix(new.as_slice())),
            )
        },
        None => {
            let both = unquote(rest);
            let path = strip_git_prefix(both.as_slice());
            (slice_to_vec(path), slice_to_vec(path))
        },
    }
}

/// Split the tail of a `diff --git a/… b/…` line into (old, new) paths.
/// Quoted paths (spaces/unicode) are handled; for unquoted paths with spaces
/// the split favors the last ` b/` separator, which is git's own convention.
pub fn parse_git_paths(rest: &str) -> (r: (String, String))
    ensures
        (r.0@, r.1@) == git_paths(rest@),
{
    let chars = chars_of(rest);
    let (old, new) = split_git_paths(chars.as_slice());
    (string_of(old.as_slice()), string_of(new.as_slice()))
}

/// The index of the first comma or white space, or the length of `s`.
pub open spec fn token_end(s: Seq<char>, from: int) -> int
    decreases s.len() - from,
{
    if from >= s.len() {
        s.len() as int
    } else if s[from] == ',' || is_space(s[from]) {
        from
    } else {
        token_end(s, from + 1)
    }
}

/// The number right behind the first `sign` of `s`, up to a comma or white space.
pub open spec fn number_after(s: Seq<char>, sign: char) -> Option<u32> {
    let at = char_from(s, sign, 0);
    if at < s.len() {
        let after = s.skip(at + 1);
        parse_u32(after.take(token_end(after, 0)))
    } else {
        None
    }
}

/// The old and new start lines of a `@@ -a[,b] +c[,d] @@ …` header.
pub open spec fn hunk_start(line: Seq<char>) -> Option<(u32, u32)> {
    if is_prefix("@@"@, line) {
        let rest = line.skip(2);
        match (number_after(rest, '-'), number_after(rest, '+')) {
            (Some(old), Some(new)) => Some((old, new)),
            _ => None,
        }
    } else {
        None
    }
}

fn signed_number(s: &[char], sign: char) -> (r: Option<u32>)
    ensures
        r == number_after(s@, sign),
{
    let total: usize = s.len();
    let at = find_char(s, sign, 0);
    if at >= total {
        return None;
    }
    let after = slice_subrange(s, at + 1, total);
    assert(after@ =~= s@.skip(at + 1));
    let mut n: usize = 0;
    while n < after.len() && !(after[n] == ',' || space(after[n]))
        invariant
            n <= after@.len(),
            token_end(after@, 0) == token_end(after@, n as int),
        decreases after@.len() - n,
    {
        n += 1;
    }
    assert(after@.subrange(0, n as int) =~= after@.take(n as int));
    u32_of(slice_subrange(after, 0, n))
}

fn header_numbers(line: &[char]) -> (r: Option<(u32, u32)>)
    ensures
        r == hunk_start(line@),
{
    proof {
        reveal_strlit("@@");
    }
    match strip_prefix(line, "@@") {
        Some(rest) => match (signed_number(rest, '-'), signed_number(rest, '+')) {
            (Some(old), Some(new)) => Some((old, new)),
            _ => None,
        },
        None => None,
    }
}

/// Parse one `@@ -a[,b] +c[,d] @@ …` header into starting line numbers.
pub fn parse_hunk_header(line: &str) -> (r: Option<(u32, u32)>)
    ensures
        r == hunk_start(line@),
{
    let chars = chars_of(line);
    header_numbers(chars.as_slice())
}

// ---------------------------------------------------------------------------
// The parser
// ---------------------------------------------------------------------------

/// The 32-bit number after `n`.
pub open spec fn next_no(n: u32) -> u32 {
    if n == u32::MAX {
        0
    } else {
        (n + 1) as u32
    }
}

fn bump(n: u32) -> (r: u32)
    ensures
        r == next_no(n),
{
    if n == u32::MAX {
        0
    } else {
        n + 1
    }
}

/// `s` without the `c`s that it begins with.
pub open spec fn without_leading(s: Seq<char>, c: char) -> Seq<char>
    decreases s.len(),
{
    if s.len() > 0 && s[0] == c {
        without_leading(s.drop_first(), c)
    } else {
        s
    }
}

/// The diff line that a line inside a hunk stands for, if it belongs to a hunk.
pub open spec fn body_line(raw: Seq<char>, old_no: u32, new_no: u32) -> Option<LineModel> {
    if raw.len() == 0 || raw[0] == ' ' {
        Some(
            LineModel {
                kind: LineKind::Context,
                old_no: Some(old_no),
                new_no: Some(new_no),
                text: if raw.len() == 0 {
                    raw
                } else {
                    raw.skip(1)
                },
            },
        )
    } else if raw[0] == '+' {
        Some(
            LineModel {
                kind: LineKind::Add,
                old_no: None,
                new_no: Some(new_no),
                text: raw.skip(1),
            },
        )
    } else if raw[0] == '-' {
        Some(
            LineModel {
                kind: LineKind::Del,
                old_no: Some(old_no),
                new_no: None,
                text: raw.skip(1),
            },
        )
    } else if raw[0] == '\\' {
        Some(
            LineModel {
                kind: LineKind::Meta,
                old_no: None,
                new_no: None,
                text: trim(without_leading(raw, '\\')),
            },
        )
    } else {
        None
    }
}

fn parse_body_line(raw: &[char], old_no: u32, new_no: u32) -> (r: Option<DiffLine>)
    ensures
        match (r, body_line(raw@, old_no, new_no)) {
            (Some(l), Some(m)) => l@ == m,
            (None, None) => true,
            _ => false,
        },
{
    let total: usize = raw.len();
    if total == 0 {
        let l = DiffLine {
            kind: LineKind::Context,
            old_no: Some(old_no),
            new_no: Some(new_no),
            text: String::new(),
        };
        assert(l@.text =~= raw@);
        return Some(l);
    }
    let rest = slice_subrange(raw, 1, total);
    assert(rest@ =~= raw@.skip(1));
    if raw[0] == ' ' {
        Some(
            DiffLine {
                kind: LineKind::Context,
                old_no: Some(old_no),
                new_no: Some(new_no),
                text: string_of(rest),
            },
        )
    } else if raw[0] == '+' {
        Some(
            DiffLine {
                kind: LineKind::Add,
                old_no: None,
                new_no: Some(new_no),
                text: string_of(rest),
            },
        )
    } else if raw[0] == '-' {
        Some(
            DiffLine {
                kind: LineKind::Del,
                old_no: Some(old_no),
                new_no: None,
                text: string_of(rest),
            },
        )
    } else if raw[0] == '\\' {
        let mut i: usize = 0;
        assert(raw@.skip(0) =~= raw@);
        while i < total && raw[i] == '\\'
            invariant
                total == raw@.len(),
                i <= total,
                without_leading(raw@, '\\') == without_leading(raw@.skip(i as int), '\\'),
            decreases total - i,
        {
            assert(raw@.skip(i as int).drop_first() =~= raw@.skip(i + 1));
            i += 1;
        }
        let tail = slice_subrange(raw, i, total);
        assert(tail@ =~= raw@.skip(i as int));
        Some(
            DiffLine {
                kind: LineKind::Meta,
                old_no: None,
                new_no: None,
                text: string_of(trimmed(tail)),
            },
        )
    } else {
        None
    }
}

/// The larger of a number and an optional one.
pub open spec fn max_no(a: u32, b: Option<u32>) -> u32 {
    match b {
        Some(n) if n > a => n,
        _ => a,
    }
}

fn larger_no(a: u32, b: Option<u32>) -> (r: u32)
    ensures
        r == max_no(a, b),
{
    match b {
        Some(n) => if n > a {
            n
        } else {
            a
        },
        None => a,
    }
}

/// A file whose last hunk has received one more line.
pub open spec fn with_line(file: FileModel, line: LineModel) -> FileModel {
    let hunk = file.hunks.last();
    FileModel {
        hunks: file.hunks.update(
            file.hunks.len() - 1,
            HunkModel { lines: hunk.lines.push(line), ..hunk },
        ),
        additions: if line.kind == LineKind::Add {
            next_no(file.additions)
        } else {
            file.additions
        },
        deletions: if line.kind == LineKind::Del {
            next_no(file.deletions)
        } else {
            file.deletions
        },
        max_line: max_no(max_no(file.max_line, line.old_no), line.new_no),
        ..file
    }
}

/// A file after a line of its header.
pub open spec fn with_header(file: FileModel, raw: Seq<char>) -> FileModel {
    if is_prefix("new file mode"@, raw) {
        FileModel { status: FileStatus::Added, ..file }
    } else if is_prefix("deleted file mode"@, raw) {
        FileModel { status: FileStatus::Deleted, ..file }
    } else if is_prefix("rename from "@, raw) {
        FileModel { status: FileStatus::Renamed, old_path: Some(trim(raw.skip(12))), ..file }
    } else if is_prefix("rename to "@, raw) {
        FileModel { status: FileStatus::Renamed, path: trim(raw.skip(10)), ..file }
    } else if is_prefix("Binary files"@, raw) || is_prefix("GIT binary patch"@, raw) {
        FileModel { binary: true, ..file }
    } else if is_prefix("new mode "@, raw) {
        FileModel {
            notices: file.notices.push("Mode changed to "@ + trim(raw.skip(9))),
            ..file
        }
    } else if is_prefix("+++ "@, raw) {
        let new = trim(raw.skip(4));
        if new == "/dev/null"@ {
            FileModel { status: FileStatus::Deleted, ..file }
        } else if file.old_path is None {
            FileModel { path: without_side(new), ..file }
        } else {
            file
        }
    } else if is_prefix("--- "@, raw) && trim(raw.skip(4)) == "/dev/null"@ {
        FileModel { status: FileStatus::Added, ..file }
    } else {
        file
    }
}

/// What the parser has after some lines: the files, whether it is inside a hunk, and the line
/// numbers that come next.
#[verifier::ext_equal]
pub struct PatchState {
    pub files: Seq<FileModel>,
    pub in_hunk: bool,
    pub old_no: u32,
    pub new_no: u32,
}

/// The parser after a `diff --git` line: one more file.
pub open spec fn after_section(st: PatchState, raw: Seq<char>) -> PatchState {
    let (old, new) = git_paths(raw.skip(11));
    PatchState {
        files: st.files.push(
            fresh_file(
                new,
                if old != new {
                    Some(old)
                } else {
                    None
                },
            ),
        ),
        in_hunk: false,
        ..st
    }
}

/// The parser after a hunk header: the last file has one more hunk, numbered from the header.
pub open spec fn after_hunk(st: PatchState, raw: Seq<char>, old: u32, new: u32) -> PatchState {
    let file = st.files.last();
    PatchState {
        files: st.files.update(
            st.files.len() - 1,
            FileModel {
                hunks: file.hunks.push(HunkModel { header: raw, lines: Seq::empty() }),
                ..file
            },
        ),
        in_hunk: true,
        old_no: old,
        new_no: new,
    }
}

/// The parser after a line of a hunk.
pub open spec fn after_body(st: PatchState, line: LineModel) -> PatchState {
    PatchState {
        files: st.files.update(st.files.len() - 1, with_line(st.files.last(), line)),
        in_hunk: true,
        old_no: if line.old_no is Some {
            next_no(st.old_no)
        } else {
            st.old_no
        },
        new_no: if line.new_no is Some {
            next_no(st.new_no)
        } else {
            st.new_no
        },
    }
}

/// The parser after a line of a file's header.
pub open spec fn after_header(st: PatchState, raw: Seq<char>) -> PatchState {
    PatchState {
        files: st.files.update(st.files.len() - 1, with_header(st.files.last(), raw)),
        in_hunk: false,
        ..st
    }
}

/// The parser after one more line.
pub open spec fn after_line(st: PatchState, raw: Seq<char>) -> PatchState {
    if is_prefix("diff --git "@, raw) {
        after_section(st, raw)
    } else if st.files.len() == 0 {
        st
    } else if is_prefix("@@"@, raw) {
        match hunk_start(raw) {
            Some((old, new)) => after_hunk(st, raw, old, new),
            None => st,
        }
    } else {
        match body_line(raw, st.old_no, st.new_no) {
            Some(line) if st.in_hunk => after_body(st, line),
            _ => after_header(st, raw),
        }
    }
}

/// The parser after all of `lines`.
pub open spec fn after_lines(lines: Seq<Seq<char>>) -> PatchState
    decreases lines.len(),
{
    if lines.len() == 0 {
        PatchState { files: Seq::empty(), in_hunk: false, old_no: 0, new_no: 0 }
    } else {
        after_line(after_lines(lines.drop_last()), lines.last())
    }
}

/// The file sections of a patch.
pub open spec fn patch_files(patch: Seq<char>) -> Seq<FileModel> {
    after_lines(text_lines(patch)).files
}

fn parse_header_line(file: FileDiff, raw: &[char]) -> (r: FileDiff)
    ensures
        r@ == with_header(file@, raw@),
{
    proof {
        reveal_strlit("rename from ");
        reveal_strlit("rename to ");
        reveal_strlit("new mode ");
        reveal_strlit("+++ ");
        reveal_strlit("--- ");
    }
    let mut file = file;
    let ghost before = file@;
    if starts_with(raw, "new file mode") {
        file.status = FileStatus::Added;
    } else if starts_with(raw, "deleted file mode") {
        file.status = FileStatus::Deleted;
    } else if let Some(from) = strip_prefix(raw, "rename from ") {
        file.status = FileStatus::Renamed;
        file.old_path = Some(string_of(trimmed(from)));
    } else if let Some(to) = strip_prefix(raw, "rename to ") {
        file.status = FileStatus::Renamed;
        file.path = string_of(trimmed(to));
    } else if starts_with(raw, "Binary files") || starts_with(raw, "GIT binary patch") {
        file.binary = true;
    } else if let Some(mode) = strip_prefix(raw, "new mode ") {
        let mut notice = "Mode changed to ".to_owned();
        let mode = string_of(trimmed(mode));
        notice.push_str(mode.as_str());
        proof {
            crate::text::lemma_texts_push(file.notices@, notice);
        }
        file.notices.push(notice);
    } else if let Some(new) = strip_prefix(raw, "+++ ") {
        let new = trimmed(new);
        if spells(new, "/dev/null") {
            file.status = FileStatus::Deleted;
        } else if file.old_path.is_none() {
            file.path = string_of(strip_git_prefix(new));
        }
    } else if let Some(old) = strip_prefix(raw, "--- ") {
        if spells(trimmed(old), "/dev/null") {
            file.status = FileStatus::Added;
        }
    }
    assert(file@ =~= with_header(before, raw@));
    file
}

fn push_line(file: FileDiff, line: DiffLine) -> (r: FileDiff)
    requires
        file.hunks@.len() > 0,
    ensures
        r@ == with_line(file@, line@),
{
    let mut file = file;
    let ghost before = file@;
    let ghost old_hunks = file.hunks@;
    if let Some(hunk) = file.hunks.pop() {
        let ghost old_hunk = hunk@;
        assert(hunk_models(old_hunks).last() == old_hunk);
        let mut hunk = hunk;
        file.max_line = larger_no(larger_no(file.max_line, line.old_no), line.new_no);
        if line.kind == LineKind::Add {
            file.additions = bump(file.additions);
        }
        if line.kind == LineKind::Del {
            file.deletions = bump(file.deletions);
        }
        let ghost old_lines = hunk.lines@;
        hunk.lines.push(line);
        assert(line_models(hunk.lines@) =~= line_models(old_lines).push(line@));
        assert(hunk@ =~= HunkModel { lines: old_hunk.lines.push(line@), ..old_hunk });
        file.hunks.push(hunk);
        assert(hunk_models(file.hunks@) =~= hunk_models(old_hunks).update(
            old_hunks.len() - 1,
            hunk@,
        ));
    }
    assert(file@ =~= with_line(before, line@));
    file
}

/// How many lines the hunks hold together.
pub open spec fn hunk_lines(hunks: Seq<HunkModel>) -> nat
    decreases hunks.len(),
{
    if hunks.len() == 0 {
        0
    } else {
        hunk_lines(hunks.drop_last()) + hunks.last().lines.len()
    }
}

pub open spec fn total_lines(file: FileModel) -> nat {
    hunk_lines(file.hunks)
}

/// One line of a patch adds at most one line to one file.
proof fn lemma_lines_grow(st: PatchState, raw: Seq<char>)
    requires
        sane(st),
    ensures
        sane(after_line(st, raw)),
        forall|k: int|
            0 <= k < after_line(st, raw).files.len() ==> total_lines(
                #[trigger] after_line(st, raw).files[k],
            ) <= if k < st.files.len() {
                total_lines(st.files[k]) + 1
            } else {
                0
            },
{
    let next = after_line(st, raw);
    assert forall|k: int| 0 <= k < next.files.len() implies total_lines(#[trigger] next.files[k])
        <= if k < st.files.len() {
        total_lines(st.files[k]) + 1
    } else {
        0
    } by {
        if k < st.files.len() {
            let a = st.files[k].hunks;
            let b = next.files[k].hunks;
            if b != a {
                if b.len() == a.len() {
                    assert(b.drop_last() =~= a.drop_last());
                } else {
                    assert(b.drop_last() =~= a);
                }
            }
        }
    }
}

/// Inside a hunk there is a file, and its last hunk is the one being read.
spec fn sane(st: PatchState) -> bool {
    st.in_hunk ==> st.files.len() > 0 && st.files.last().hunks.len() > 0
}

/// Parse a unified git patch into file sections. Tolerant: unknown header
/// lines are skipped, truncated hunks keep what parsed so far.
pub fn parse_patch(patch: &str) -> (r: Vec<FileDiff>)
    ensures
        file_models(r@) == patch_files(patch@),
        forall|k: int| 0 <= k < r@.len() ==> total_lines(#[trigger] r@[k]@) <= usize::MAX,
{
    proof {
        reveal_strlit("diff --git ");
    }
    let chars = chars_of(patch);
    let lines = split_lines(chars.as_slice());
    let mut files: Vec<FileDiff> = Vec::new();
    let mut in_hunk = false;
    let mut old_no: u32 = 0;
    let mut new_no: u32 = 0;
    assert(file_models(files@) =~= Seq::empty());
    for i in 0..lines.len()
        invariant
            "diff --git "@.len() == 11,
            (PatchState { files: file_models(files@), in_hunk, old_no, new_no }) == after_lines(
                rows(lines@).take(i as int),
            ),
            sane(after_lines(rows(lines@).take(i as int))),
            forall|k: int|
                0 <= k < files@.len() ==> total_lines(#[trigger] file_models(files@)[k]) <= i,
    {
        let raw = lines[i].as_slice();
        let ghost st = after_lines(rows(lines@).take(i as int));
        let ghost before = files@;
        proof {
            assert(rows(lines@).take(i + 1).drop_last() =~= rows(lines@).take(i as int));
            assert(rows(lines@).take(i + 1).last() == raw@);
            assert(after_lines(rows(lines@).take(i + 1)) == after_line(st, raw@));
        }
        if let Some(rest) = strip_prefix(raw, "diff --git ") {
            let (old, new) = split_git_paths(rest);
            let old_path = if same(old.as_slice(), new.as_slice()) {
                None
            } else {
                Some(string_of(old.as_slice()))
            };
            let file = FileDiff::new(string_of(new.as_slice()), old_path);
            files.push(file);
            in_hunk = false;
            assert(file_models(files@) =~= file_models(before).push(file@));
        } else if let Some(file) = files.pop() {
            let ghost shown = file@;
            assert(file_models(before).last() == shown);
            let mut file = file;
            if starts_with(raw, "@@") {
                if let Some((o, n)) = header_numbers(raw) {
                    old_no = o;
                    new_no = n;
                    let ghost old_hunks = file.hunks@;
                    let hunk = Hunk { header: string_of(raw), lines: Vec::new() };
                    assert(hunk@ =~= HunkModel { header: raw@, lines: Seq::empty() });
                    file.hunks.push(hunk);
                    in_hunk = true;
                    assert(hunk_models(file.hunks@) =~= hunk_models(old_hunks).push(hunk@));
                }
            } else {
                let line = if in_hunk {
                    parse_body_line(raw, old_no, new_no)
                } else {
                    None
                };
                match line {
                    Some(line) => {
                        if line.old_no.is_some() {
                            old_no = bump(old_no);
                        }
                        if line.new_no.is_some() {
                            new_no = bump(new_no);
                        }
                        file = push_line(file, line);
                    },
                    None => {
                        // A non-hunk line ends the hunk: file header territory.
                        in_hunk = false;
                        file = parse_header_line(file, raw);
                    },
                }
            }
            files.push(file);
            assert(file_models(files@) =~= file_models(before).update(before.len() - 1, file@));
        } else {
            assert(file_models(files@) =~= file_models(before));
        }
        assert(file_models(files@) =~= after_line(st, raw@).files);
        proof {
            lemma_lines_grow(st, raw@);
        }
    }
    assert(rows(lines@).take(lines@.len() as int) =~= rows(lines@));
    assert forall|k: int| 0 <= k < files@.len() implies total_lines(#[trigger] files@[k]@)
        <= usize::MAX by {
        assert(file_models(files@)[k] == files@[k]@);
    }
    files
}

// ---------------------------------------------------------------------------
// Derived rows
// ---------------------------------------------------------------------------

/// The notices of a file: what became of it, whether it is binary, and what the parser noted.
pub open spec fn notices_of(file: FileModel) -> Seq<Seq<char>> {
    let status = match file.status {
        FileStatus::Added => seq!["New file"@],
        FileStatus::Deleted => seq!["Deleted file"@],
        FileStatus::Renamed => seq![
            "Renamed from "@ + match file.old_path {
                Some(from) => from,
                None => "?"@,
            },
        ],
        FileStatus::Modified => Seq::empty(),
    };
    let binary = if file.binary {
        seq!["Binary file — contents not shown"@]
    } else {
        Seq::empty()
    };
    status + binary + file.notices
}

/// Derived per-file notice rows (new/deleted/renamed/binary + parser notices).
pub fn file_notices(file: &FileDiff) -> (r: Vec<String>)
    ensures
        texts(r@) == notices_of(file@),
{
    let mut notices: Vec<String> = Vec::new();
    match file.status {
        FileStatus::Added => notices.push("New file".to_owned()),
        FileStatus::Deleted => notices.push("Deleted file".to_owned()),
        FileStatus::Renamed => {
            let mut notice = "Renamed from ".to_owned();
            match &file.old_path {
                Some(from) => notice.push_str(from.as_str()),
                None => notice.push_str("?"),
            }
            notices.push(notice);
        },
        FileStatus::Modified => {},
    }
    if file.binary {
        notices.push("Binary file — contents not shown".to_owned());
    }
    let ghost head = texts(notices@);
    for i in 0..file.notices.len()
        invariant
            texts(notices@) == head + texts(file.notices@).take(i as int),
    {
        let ghost before = notices@;
        let notice = file.notices[i].clone();
        notices.push(notice);
        proof {
            crate::text::lemma_texts_push(before, notice);
            assert(texts(file.notices@).take(i + 1) =~= texts(file.notices@).take(i as int).push(
                notice@,
            ));
            assert(texts(notices@) =~= head + texts(file.notices@).take(i + 1));
        }
    }
    assert(texts(file.notices@).take(file.notices@.len() as int) =~= texts(file.notices@));
    assert(texts(notices@) =~= notices_of(file@));
    notices
}

/// The hunks that a budget of lines leaves: whole ones while it lasts, then the one it cuts.
pub open spec fn kept_hunks(hunks: Seq<HunkModel>, budget: nat) -> Seq<HunkModel>
    decreases hunks.len(),
{
    if hunks.len() == 0 || budget == 0 {
        Seq::empty()
    } else if hunks[0].lines.len() > budget {
        seq![HunkModel { lines: hunks[0].lines.take(budget as int), ..hunks[0] }]
    } else {
        seq![hunks[0]] + kept_hunks(hunks.drop_first(), (budget - hunks[0].lines.len()) as nat)
    }
}

/// A file with at most `max` of its lines, and a notice where that leaves some out.
pub open spec fn truncated(file: FileModel, max: nat) -> FileModel {
    if total_lines(file) <= max {
        file
    } else {
        FileModel {
            hunks: kept_hunks(file.hunks, max),
            notices: file.notices.push(
                "Diff truncated — showing first "@ + decimal(max) + " of "@ + decimal(
                    total_lines(file),
                ) + " lines"@,
            ),
            max_line: largest_no(kept_hunks(file.hunks, max)),
            ..file
        }
    }
}

pub proof fn lemma_hunk_lines_prefix(hunks: Seq<HunkModel>, n: int)
    requires
        0 <= n <= hunks.len(),
    ensures
        hunk_lines(hunks.take(n)) <= hunk_lines(hunks),
    decreases hunks.len(),
{
    if n < hunks.len() {
        lemma_hunk_lines_prefix(hunks.drop_last(), n);
        assert(hunks.drop_last().take(n) =~= hunks.take(n));
    } else {
        assert(hunks.take(n) =~= hunks);
    }
}

/// How many lines a file's hunks hold.
pub(crate) fn count_lines(file: &FileDiff) -> (total: usize)
    requires
        total_lines(file@) <= usize::MAX,
    ensures
        total == total_lines(file@),
{
    let mut total: usize = 0;
    for i in 0..file.hunks.len()
        invariant
            total_lines(file@) <= usize::MAX,
            total == hunk_lines(file@.hunks.take(i as int)),
    {
        proof {
            lemma_hunk_lines_prefix(file@.hunks, i + 1);
            assert(file@.hunks.take(i + 1).drop_last() =~= file@.hunks.take(i as int));
            assert(file@.hunks.take(i + 1).last().lines.len() == file.hunks@[i as int].lines@.len());
        }
        total = total + file.hunks[i].lines.len();
    }
    assert(file@.hunks.take(file.hunks@.len() as int) =~= file@.hunks);
    total
}

/// The largest line number on either side of any line.
fn largest_line(hunks: &Vec<Hunk>) -> (largest: u32)
    ensures
        largest == largest_no(hunk_models(hunks@)),
{
    let mut largest: u32 = 0;
    for i in 0..hunks.len()
        invariant
            largest == largest_no(hunk_models(hunks@).take(i as int)),
    {
        let ghost floor = largest;
        let ghost lines = hunks@[i as int]@.lines;
        let count: usize = hunks[i].lines.len();
        for j in 0..count
            invariant
                i < hunks@.len(),
                count == hunks@[i as int].lines@.len(),
                lines == line_models(hunks@[i as int].lines@),
                largest == largest_of_lines(lines.take(j as int), floor),
        {
            assert(lines.take(j + 1).drop_last() =~= lines.take(j as int));
            assert(lines.take(j + 1).last() == hunks@[i as int].lines@[j as int]@);
            largest = larger_no(
                larger_no(largest, hunks[i].lines[j].old_no),
                hunks[i].lines[j].new_no,
            );
        }
        proof {
            assert(lines.take(lines.len() as int) =~= lines);
            assert(hunk_models(hunks@).take(i + 1).drop_last() =~= hunk_models(hunks@).take(
                i as int,
            ));
            assert(hunk_models(hunks@).take(i + 1).last() == hunks@[i as int]@);
        }
    }
    assert(hunk_models(hunks@).take(hunks@.len() as int) =~= hunk_models(hunks@));
    largest
}

/// Cap a file's hunks at `max_lines` total diff lines, appending a notice
/// when lines were dropped. The transcript renders a tool diff as ONE
/// stacked element inside its row, so an unbounded diff (a fetched
/// full-diff blob, a whole-file rewrite) would otherwise build tens of
/// thousands of elements every frame it is visible.
pub fn truncate_file_lines(file: &mut FileDiff, max_lines: usize)
    requires
        total_lines(old(file)@) <= usize::MAX,
    ensures
        final(file)@ == truncated(old(file)@, max_lines as nat),
{
    let total = count_lines(file);
    if total <= max_lines {
        return;
    }
    let ghost orig = file@.hunks;
    let ghost before = file@;
    let mut budget: usize = max_lines;
    let mut i: usize = 0;
    assert(orig.skip(0) =~= orig);
    assert(Seq::<HunkModel>::empty() + kept_hunks(orig, max_lines as nat) =~= kept_hunks(
        orig,
        max_lines as nat,
    ));
    while i < file.hunks.len() && budget > 0 && file.hunks[i].lines.len() <= budget
        invariant
            file@ == before,
            orig == before.hunks,
            i <= orig.len(),
            orig.len() == file.hunks@.len(),
            kept_hunks(orig, max_lines as nat) == orig.take(i as int) + kept_hunks(
                orig.skip(i as int),
                budget as nat,
            ),
        decreases orig.len() - i,
    {
        proof {
            let rest = orig.skip(i as int);
            assert(rest[0] == file.hunks@[i as int]@);
            assert(rest.drop_first() =~= orig.skip(i + 1));
            let left = (budget - rest[0].lines.len()) as nat;
            assert(orig.take(i as int) + (seq![rest[0]] + kept_hunks(orig.skip(i + 1), left))
                =~= orig.take(i + 1) + kept_hunks(orig.skip(i + 1), left));
        }
        budget = budget - file.hunks[i].lines.len();
        i += 1;
    }
    let ghost kept = kept_hunks(orig, max_lines as nat);
    let ghost whole = file.hunks@;
    if i < file.hunks.len() && budget > 0 {
        file.hunks.truncate(i + 1);
        if let Some(hunk) = file.hunks.pop() {
            let mut hunk = hunk;
            let ghost full = hunk@;
            assert(full == orig[i as int]);
            hunk.lines.truncate(budget);
            assert(line_models(hunk.lines@) =~= full.lines.take(budget as int));
            file.hunks.push(hunk);
            proof {
                assert(orig.skip(i as int)[0] == orig[i as int]);
                assert(hunk_models(file.hunks@) =~= orig.take(i as int).push(hunk@));
                assert(kept =~= orig.take(i as int).push(hunk@));
            }
        }
    } else {
        file.hunks.truncate(i);
        proof {
            assert(kept_hunks(orig.skip(i as int), budget as nat) =~= Seq::empty());
            assert(hunk_models(file.hunks@) =~= orig.take(i as int));
            assert(kept =~= orig.take(i as int));
        }
    }
    let mut notice = "Diff truncated — showing first ".to_owned();
    push_decimal(&mut notice, max_lines as u64);
    notice.push_str(" of ");
    push_decimal(&mut notice, total as u64);
    notice.push_str(" lines");
    proof {
        crate::text::lemma_texts_push(file.notices@, notice);
    }
    file.notices.push(notice);
    // The gutter fits what actually renders.
    file.max_line = largest_line(&file.hunks);
    assert(file@ =~= truncated(before, max_lines as nat));
}

/// The side and line that a diff line is cited by.
pub open spec fn anchor_of(line: LineModel) -> Option<(CommentSide, u32)> {
    match (line.kind, line.old_no, line.new_no) {
        (LineKind::Meta, _, _) => None,
        (LineKind::Del, Some(no), _) => Some((CommentSide::Old, no)),
        (LineKind::Del, None, _) => None,
        (_, _, Some(no)) => Some((CommentSide::New, no)),
        (_, _, None) => None,
    }
}

/// A deletion only exists in the pre-change file; everything else is cited
/// against the post-change file, which is what the agent edits.
pub fn line_anchor(line: &DiffLine) -> (r: Option<(CommentSide, u32)>)
    ensures
        r == anchor_of(line@),
{
    match line.kind {
        LineKind::Meta => None,
        LineKind::Del => match line.old_no {
            Some(no) => Some((CommentSide::Old, no)),
            None => None,
        },
        _ => match line.new_no {
            Some(no) => Some((CommentSide::New, no)),
            None => None,
        },
    }
}

// ---------------------------------------------------------------------------
// What every parsed patch satisfies
// ---------------------------------------------------------------------------

/// How many of the lines have the given kind.
pub open spec fn lines_of_kind(lines: Seq<LineModel>, kind: LineKind) -> nat
    decreases lines.len(),
{
    if lines.len() == 0 {
        0
    } else {
        lines_of_kind(lines.drop_last(), kind) + if lines.last().kind == kind {
            1nat
        } else {
            0nat
        }
    }
}

/// How many lines of the hunks have the given kind.
pub open spec fn hunk_lines_of_kind(hunks: Seq<HunkModel>, kind: LineKind) -> nat
    decreases hunks.len(),
{
    if hunks.len() == 0 {
        0
    } else {
        hunk_lines_of_kind(hunks.drop_last(), kind) + lines_of_kind(hunks.last().lines, kind)
    }
}

/// The largest line number among the lines, or `floor` where that is larger.
pub open spec fn largest_of_lines(lines: Seq<LineModel>, floor: u32) -> u32
    decreases lines.len(),
{
    if lines.len() == 0 {
        floor
    } else {
        max_no(
            max_no(largest_of_lines(lines.drop_last(), floor), lines.last().old_no),
            lines.last().new_no,
        )
    }
}

/// The largest line number in the hunks, or 0 where they have none.
pub open spec fn largest_no(hunks: Seq<HunkModel>) -> u32
    decreases hunks.len(),
{
    if hunks.len() == 0 {
        0
    } else {
        largest_of_lines(hunks.last().lines, largest_no(hunks.drop_last()))
    }
}

/// A file's counts and largest line number are those of its lines; counts are modulo 2^32.
pub open spec fn tallied(file: FileModel) -> bool {
    &&& file.additions == hunk_lines_of_kind(file.hunks, LineKind::Add) % 0x1_0000_0000
    &&& file.deletions == hunk_lines_of_kind(file.hunks, LineKind::Del) % 0x1_0000_0000
    &&& file.max_line == largest_no(file.hunks)
}

/// How many lines before `n` have a number on the old side.
pub open spec fn old_lines_before(lines: Seq<LineModel>, n: int) -> nat
    decreases n,
{
    if n <= 0 {
        0
    } else {
        old_lines_before(lines, n - 1) + if lines[n - 1].old_no is Some {
            1nat
        } else {
            0nat
        }
    }
}

/// How many lines before `n` have a number on the new side.
pub open spec fn new_lines_before(lines: Seq<LineModel>, n: int) -> nat
    decreases n,
{
    if n <= 0 {
        0
    } else {
        new_lines_before(lines, n - 1) + if lines[n - 1].new_no is Some {
            1nat
        } else {
            0nat
        }
    }
}

/// `n` counted on from `start`, modulo 2^32.
pub open spec fn counted(start: u32, n: nat) -> u32 {
    ((start + n) % 0x1_0000_0000) as u32
}

/// The numbers of a hunk's lines count up from the starts in its header: an added line counts on
/// the new side, a deleted one on the old side, a context line on both, a meta line on neither.
pub open spec fn numbered(hunk: HunkModel) -> bool {
    match hunk_start(hunk.header) {
        None => false,
        Some((old, new)) => forall|i: int|
            0 <= i < hunk.lines.len() ==> {
                let l = #[trigger] hunk.lines[i];
                &&& l.old_no == if l.kind == LineKind::Del || l.kind == LineKind::Context {
                    Some(counted(old, old_lines_before(hunk.lines, i)))
                } else {
                    None
                }
                &&& l.new_no == if l.kind == LineKind::Add || l.kind == LineKind::Context {
                    Some(counted(new, new_lines_before(hunk.lines, i)))
                } else {
                    None
                }
            },
    }
}

/// A file as the parser leaves it.
pub open spec fn sound(file: FileModel) -> bool {
    &&& tallied(file)
    &&& forall|h: int| 0 <= h < file.hunks.len() ==> numbered(#[trigger] file.hunks[h])
}

/// The parser's own state agrees with the hunk it is reading.
spec fn sound_state(st: PatchState) -> bool {
    &&& sane(st)
    &&& forall|k: int| 0 <= k < st.files.len() ==> sound(#[trigger] st.files[k])
    &&& st.in_hunk ==> {
        let hunk = st.files.last().hunks.last();
        match hunk_start(hunk.header) {
            None => false,
            Some((old, new)) => {
                &&& st.old_no == counted(old, old_lines_before(hunk.lines, hunk.lines.len() as int))
                &&& st.new_no == counted(new, new_lines_before(hunk.lines, hunk.lines.len() as int))
            },
        }
    }
}

proof fn lemma_before_push(lines: Seq<LineModel>, l: LineModel, n: int)
    requires
        n <= lines.len(),
    ensures
        old_lines_before(lines.push(l), n) == old_lines_before(lines, n),
        new_lines_before(lines.push(l), n) == new_lines_before(lines, n),
    decreases n,
{
    if n > 0 {
        lemma_before_push(lines, l, n - 1);
    }
}

proof fn lemma_counted_next(start: u32, n: nat)
    ensures
        next_no(counted(start, n)) == counted(start, n + 1),
{
}

/// The numbers that come after a line are those that come before it, counted on.
proof fn lemma_counters(hunk: HunkModel, line: LineModel, raw: Seq<char>, old: u32, new: u32)
    requires
        hunk_start(hunk.header) == Some((old, new)),
        body_line(
            raw,
            counted(old, old_lines_before(hunk.lines, hunk.lines.len() as int)),
            counted(new, new_lines_before(hunk.lines, hunk.lines.len() as int)),
        ) == Some(line),
    ensures
        ({
            let n = hunk.lines.len() as int;
            let old_no = counted(old, old_lines_before(hunk.lines, n));
            let new_no = counted(new, new_lines_before(hunk.lines, n));
            let lines = hunk.lines.push(line);
            &&& (if line.old_no is Some {
                next_no(old_no)
            } else {
                old_no
            }) == counted(old, old_lines_before(lines, n + 1))
            &&& (if line.new_no is Some {
                next_no(new_no)
            } else {
                new_no
            }) == counted(new, new_lines_before(lines, n + 1))
        }),
{
    let n = hunk.lines.len() as int;
    lemma_before_push(hunk.lines, line, n);
    lemma_counted_next(old, old_lines_before(hunk.lines, n));
    lemma_counted_next(new, new_lines_before(hunk.lines, n));
    assert(hunk.lines.push(line)[n] == line);
}

proof fn lemma_with_line_tallied(file: FileModel, line: LineModel)
    requires
        tallied(file),
        file.hunks.len() > 0,
    ensures
        tallied(with_line(file, line)),
{
    let next = with_line(file, line);
    let hunk = file.hunks.last();
    assert(next.hunks.drop_last() =~= file.hunks.drop_last());
    assert(next.hunks.last().lines == hunk.lines.push(line));
    assert(hunk.lines.push(line).drop_last() =~= hunk.lines);
}

proof fn lemma_with_line_numbered(hunk: HunkModel, line: LineModel, raw: Seq<char>)
    requires
        numbered(hunk),
        ({
            let (old, new) = hunk_start(hunk.header)->0;
            let n = hunk.lines.len() as int;
            body_line(
                raw,
                counted(old, old_lines_before(hunk.lines, n)),
                counted(new, new_lines_before(hunk.lines, n)),
            ) == Some(line)
        }),
    ensures
        numbered(HunkModel { lines: hunk.lines.push(line), ..hunk }),
{
    let lines = hunk.lines.push(line);
    let grown = HunkModel { lines, ..hunk };
    let (old, new) = hunk_start(hunk.header)->0;
    assert forall|i: int| 0 <= i < lines.len() implies ({
        let l = #[trigger] grown.lines[i];
        &&& l.old_no == if l.kind == LineKind::Del || l.kind == LineKind::Context {
            Some(counted(old, old_lines_before(lines, i)))
        } else {
            None
        }
        &&& l.new_no == if l.kind == LineKind::Add || l.kind == LineKind::Context {
            Some(counted(new, new_lines_before(lines, i)))
        } else {
            None
        }
    }) by {
        lemma_before_push(hunk.lines, line, i);
        if i < hunk.lines.len() {
            assert(lines[i] == hunk.lines[i]);
        }
    }
}

proof fn lemma_with_line_sound(st: PatchState, line: LineModel, raw: Seq<char>)
    requires
        sound_state(st),
        st.in_hunk,
        body_line(raw, st.old_no, st.new_no) == Some(line),
    ensures
        sound(with_line(st.files.last(), line)),
{
    let file = st.files.last();
    let next = with_line(file, line);
    let last = file.hunks.len() - 1;
    assert(sound(file));
    lemma_with_line_tallied(file, line);
    assert(numbered(file.hunks[last]));
    lemma_with_line_numbered(file.hunks[last], line, raw);
    assert forall|h: int| 0 <= h < next.hunks.len() implies numbered(#[trigger] next.hunks[h]) by {
        if h < last {
            assert(next.hunks[h] == file.hunks[h]);
        }
    }
}

/// Where only the last file changes, the others stay sound.
proof fn lemma_others_sound(st: PatchState, next: PatchState)
    requires
        sound_state(st),
        st.files.len() > 0,
        next.files == st.files.update(st.files.len() - 1, next.files.last()),
        sound(next.files.last()),
    ensures
        forall|k: int| 0 <= k < next.files.len() ==> sound(#[trigger] next.files[k]),
{
    assert forall|k: int| 0 <= k < next.files.len() implies sound(#[trigger] next.files[k]) by {
        if k < st.files.len() - 1 {
            assert(next.files[k] == st.files[k]);
        }
    }
}

proof fn lemma_sound_hunk(st: PatchState, raw: Seq<char>, old: u32, new: u32)
    requires
        sound_state(st),
        st.files.len() > 0,
        hunk_start(raw) == Some((old, new)),
    ensures
        sound_state(after_hunk(st, raw, old, new)),
{
    let next = after_hunk(st, raw, old, new);
    let file = st.files.last();
    let grown = next.files.last();
    let opened = HunkModel { header: raw, lines: Seq::empty() };
    assert(sound(file));
    assert(grown.hunks.drop_last() =~= file.hunks);
    assert(grown.hunks.last() == opened);
    assert(tallied(grown));
    assert(numbered(opened));
    assert forall|h: int| 0 <= h < grown.hunks.len() implies numbered(#[trigger] grown.hunks[h]) by {
        if h < file.hunks.len() {
            assert(grown.hunks[h] == file.hunks[h]);
        }
    }
    lemma_others_sound(st, next);
}

proof fn lemma_sound_line(st: PatchState, line: LineModel, raw: Seq<char>)
    requires
        sound_state(st),
        st.in_hunk,
        body_line(raw, st.old_no, st.new_no) == Some(line),
    ensures
        sound_state(after_body(st, line)),
{
    let next = after_body(st, line);
    let file = st.files.last();
    let hunk = file.hunks.last();
    let (old, new) = hunk_start(hunk.header)->0;
    lemma_with_line_sound(st, line, raw);
    lemma_counters(hunk, line, raw, old, new);
    assert(next.files.last() == with_line(file, line));
    assert(next.files.last().hunks.last() == HunkModel { lines: hunk.lines.push(line), ..hunk });
    lemma_others_sound(st, next);
}

/// A header line changes no hunk and no count.
proof fn lemma_header_keeps(file: FileModel, raw: Seq<char>)
    ensures
        with_header(file, raw).hunks == file.hunks,
        with_header(file, raw).additions == file.additions,
        with_header(file, raw).deletions == file.deletions,
        with_header(file, raw).max_line == file.max_line,
{
}

proof fn lemma_sound_section(st: PatchState, raw: Seq<char>)
    requires
        sound_state(st),
    ensures
        sound_state(after_section(st, raw)),
{
    let next = after_section(st, raw);
    assert(next.files.last().hunks.len() == 0);
    assert(sound(next.files.last()));
    assert forall|k: int| 0 <= k < next.files.len() implies sound(#[trigger] next.files[k]) by {
        if k < st.files.len() {
            assert(next.files[k] == st.files[k]);
        }
    }
}

proof fn lemma_sound_header(st: PatchState, raw: Seq<char>)
    requires
        sound_state(st),
        st.files.len() > 0,
    ensures
        sound_state(after_header(st, raw)),
{
    let next = after_header(st, raw);
    let file = st.files.last();
    lemma_header_keeps(file, raw);
    assert(sound(file));
    assert(next.files.last() == with_header(file, raw));
    assert(sound(next.files.last()));
    lemma_others_sound(st, next);
}

proof fn lemma_sound_step(st: PatchState, raw: Seq<char>)
    requires
        sound_state(st),
    ensures
        sound_state(after_line(st, raw)),
{
    if is_prefix("diff --git "@, raw) {
        lemma_sound_section(st, raw);
    } else if st.files.len() == 0 {
    } else if is_prefix("@@"@, raw) {
        if let Some((old, new)) = hunk_start(raw) {
            lemma_sound_hunk(st, raw, old, new);
        }
    } else if st.in_hunk && body_line(raw, st.old_no, st.new_no) is Some {
        lemma_sound_line(st, body_line(raw, st.old_no, st.new_no)->0, raw);
    } else {
        lemma_sound_header(st, raw);
    }
}

proof fn lemma_sound_lines(lines: Seq<Seq<char>>)
    ensures
        sound_state(after_lines(lines)),
    decreases lines.len(),
{
    if lines.len() > 0 {
        lemma_sound_lines(lines.drop_last());
        lemma_sound_step(after_lines(lines.drop_last()), lines.last());
    }
}

/// Every file of a parsed patch counts its own added and deleted lines, knows its largest line
/// number, and numbers the lines of each hunk from the hunk's header.
pub proof fn law_parsed_files_are_sound(patch: Seq<char>)
    ensures
        forall|k: int| 0 <= k < patch_files(patch).len() ==> sound(#[trigger] patch_files(patch)[k]),
{
    lemma_sound_lines(text_lines(patch));
}

/// How many of the lines open a file section.
pub open spec fn section_count(lines: Seq<Seq<char>>) -> nat
    decreases lines.len(),
{
    if lines.len() == 0 {
        0
    } else {
        section_count(lines.drop_last()) + if is_prefix("diff --git "@, lines.last()) {
            1nat
        } else {
            0nat
        }
    }
}

proof fn lemma_section_count(lines: Seq<Seq<char>>)
    ensures
        after_lines(lines).files.len() == section_count(lines),
    decreases lines.len(),
{
    if lines.len() > 0 {
        lemma_section_count(lines.drop_last());
    }
}

/// A patch has one file per `diff --git` line.
pub proof fn law_one_file_per_section(patch: Seq<char>)
    ensures
        patch_files(patch).len() == section_count(text_lines(patch)),
{
    lemma_section_count(text_lines(patch));
}

proof fn lemma_hunk_lines_front(hunks: Seq<HunkModel>)
    requires
        hunks.len() > 0,
    ensures
        hunk_lines(hunks) == hunks[0].lines.len() + hunk_lines(hunks.drop_first()),
    decreases hunks.len(),
{
    if hunks.len() == 1 {
        assert(hunks.drop_first() =~= Seq::empty());
        assert(hunks.drop_last() =~= Seq::empty());
        assert(hunk_lines(hunks.drop_last()) == 0);
        assert(hunk_lines(hunks.drop_first()) == 0);
    } else {
        lemma_hunk_lines_front(hunks.drop_last());
        assert(hunks.drop_last().drop_first() =~= hunks.drop_first().drop_last());
    }
}

proof fn lemma_kept_lines(hunks: Seq<HunkModel>, budget: nat)
    ensures
        hunk_lines(kept_hunks(hunks, budget)) == if hunk_lines(hunks) <= budget {
            hunk_lines(hunks)
        } else {
            budget
        },
    decreases hunks.len(),
{
    let kept = kept_hunks(hunks, budget);
    if hunks.len() > 0 {
        lemma_hunk_lines_front(hunks);
        if budget > 0 {
            lemma_hunk_lines_front(kept);
            if hunks[0].lines.len() > budget {
                assert(kept.drop_first() =~= Seq::empty());
            } else {
                let left = (budget - hunks[0].lines.len()) as nat;
                assert(kept.drop_first() =~= kept_hunks(hunks.drop_first(), left));
                lemma_kept_lines(hunks.drop_first(), left);
            }
        }
    }
}

/// Truncation leaves exactly as many lines as the cap allows, and truncating again changes nothing.
pub proof fn law_truncation_caps(file: FileModel, max: nat)
    ensures
        total_lines(truncated(file, max)) == if total_lines(file) <= max {
            total_lines(file)
        } else {
            max
        },
        truncated(truncated(file, max), max) == truncated(file, max),
{
    lemma_kept_lines(file.hunks, max);
}

// ---------------------------------------------------------------------------
// What the lines of a patch become
// ---------------------------------------------------------------------------

/// `text` is what a note line says behind its backslashes, without the blanks around it.
pub open spec fn noted(raw: Seq<char>, text: Seq<char>) -> bool {
    exists|a: int, b: int| #[trigger] noted_at(raw, text, a, b)
}

pub open spec fn noted_at(raw: Seq<char>, text: Seq<char>, a: int, b: int) -> bool {
    &&& 0 <= a <= b <= raw.len()
    &&& text == raw.subrange(a, b)
    &&& forall|i: int| 0 <= i < a ==> (#[trigger] raw[i]) == '\\' || is_space(raw[i])
    &&& forall|i: int| b <= i < raw.len() ==> is_space(#[trigger] raw[i])
    &&& text.len() > 0 ==> !is_space(text[0]) && !is_space(text.last())
}

/// A diff line says what the line of the patch says: behind the marker of its kind stands its text,
/// letter for letter. An empty line of the patch is an empty context line.
pub open spec fn says(line: LineModel, raw: Seq<char>) -> bool {
    match line.kind {
        LineKind::Add => raw == seq!['+'] + line.text,
        LineKind::Del => raw == seq!['-'] + line.text,
        LineKind::Context => raw == seq![' '] + line.text || (raw.len() == 0 && line.text.len()
            == 0),
        LineKind::Meta => raw.len() > 0 && raw[0] == '\\' && noted(raw, line.text),
    }
}

/// A line that ends the hunk before it: the next file's or hunk's header, or one that begins with
/// none of the markers of a hunk's lines.
pub open spec fn ends_hunk(raw: Seq<char>) -> bool {
    ||| is_prefix("diff --git "@, raw)
    ||| hunk_start(raw) is Some
    ||| !is_prefix("@@"@, raw) && raw.len() > 0 && raw[0] != ' ' && raw[0] != '+' && raw[0] != '-'
        && raw[0] != '\\'
}

/// How many hunk headers the section that `n` lies in has before `n`.
pub open spec fn hunks_before(lines: Seq<Seq<char>>, n: int) -> nat
    decreases n,
{
    if n <= 0 || n > lines.len() || is_prefix("diff --git "@, lines[n - 1]) {
        0
    } else {
        hunks_before(lines, n - 1) + if hunk_start(lines[n - 1]) is Some {
            1nat
        } else {
            0nat
        }
    }
}

/// A hunk was read from the lines `from` to `upto`: its header is the first of them, and each of
/// the others is one of its lines, in order, except those that look like a header and are none.
/// `sources` are the places of its lines.
pub open spec fn read_from(
    lines: Seq<Seq<char>>,
    hunk: HunkModel,
    from: int,
    upto: int,
    sources: Seq<int>,
) -> bool {
    &&& 0 <= from < upto <= lines.len()
    &&& lines[from] == hunk.header
    &&& hunk_start(lines[from]) is Some
    &&& sources.len() == hunk.lines.len()
    &&& forall|k: int|
        0 <= k < sources.len() ==> from < #[trigger] sources[k] < upto && says(
            hunk.lines[k],
            lines[sources[k]],
        )
    &&& forall|j: int, k: int|
        0 <= j < k < sources.len() ==> #[trigger] sources[j] < #[trigger] sources[k]
    &&& forall|r: int|
        from < r < upto ==> sources.contains(r) || (is_prefix("@@"@, #[trigger] lines[r])
            && hunk_start(lines[r]) is None)
}

/// The `h`th hunk of the `f`th file was read from these lines: they stand in the `f`th section,
/// behind `h` other hunk headers.
spec fn placed(
    lines: Seq<Seq<char>>,
    f: int,
    h: int,
    hunk: HunkModel,
    from: int,
    upto: int,
    sources: Seq<int>,
) -> bool {
    &&& read_from(lines, hunk, from, upto, sources)
    &&& section_count(lines.take(from)) == f + 1
    &&& hunks_before(lines, from) == h
}

/// After `n` lines, a hunk was read whole, or is being read up to there.
spec fn traced(lines: Seq<Seq<char>>, n: int, f: int, h: int, hunk: HunkModel, open: bool) -> bool {
    exists|from: int, upto: int, sources: Seq<int>| #[trigger]
        placed(lines, f, h, hunk, from, upto, sources) && if open {
            upto == n
        } else {
            upto < n && ends_hunk(lines[upto])
        }
}

spec fn is_open(st: PatchState, f: int, h: int) -> bool {
    st.in_hunk && f == st.files.len() - 1 && h == st.files.last().hunks.len() - 1
}

spec fn all_traced(lines: Seq<Seq<char>>, n: int) -> bool {
    let st = after_lines(lines.take(n));
    &&& sane(st)
    &&& st.files.len() == section_count(lines.take(n))
    &&& st.files.len() > 0 ==> st.files.last().hunks.len() == hunks_before(lines, n)
    &&& forall|f: int, h: int|
        0 <= f < st.files.len() && 0 <= h < st.files[f].hunks.len() ==> traced(
            lines,
            n,
            f,
            h,
            #[trigger] st.files[f].hunks[h],
            is_open(st, f, h),
        )
}

proof fn lemma_without_leading(s: Seq<char>, c: char)
    ensures
        without_leading(s, c).len() <= s.len(),
        without_leading(s, c) == s.skip(s.len() - without_leading(s, c).len()),
        forall|i: int| 0 <= i < s.len() - without_leading(s, c).len() ==> #[trigger] s[i] == c,
    decreases s.len(),
{
    let t = without_leading(s, c);
    if s.len() > 0 && s[0] == c {
        let rest = s.drop_first();
        lemma_without_leading(rest, c);
        assert(rest.skip(rest.len() - t.len()) =~= s.skip(s.len() - t.len()));
        assert forall|i: int| 0 <= i < s.len() - t.len() implies #[trigger] s[i] == c by {
            if i > 0 {
                assert(rest[i - 1] == s[i]);
            }
        }
    } else {
        assert(s.skip(0) =~= s);
    }
}

proof fn lemma_body_says(raw: Seq<char>, old_no: u32, new_no: u32)
    ensures
        body_line(raw, old_no, new_no) matches Some(line) ==> says(line, raw),
        body_line(raw, old_no, new_no) is None <==> raw.len() > 0 && raw[0] != ' ' && raw[0] != '+'
            && raw[0] != '-' && raw[0] != '\\',
{
    if let Some(line) = body_line(raw, old_no, new_no) {
        if raw.len() > 0 {
            if line.kind == LineKind::Meta {
                let tail = without_leading(raw, '\\');
                lemma_without_leading(raw, '\\');
                let (x, y) = law_trimming_takes_the_blanks_around(tail);
                let skipped = raw.len() - tail.len();
                let a = skipped + x;
                let b = skipped + y;
                assert(line.text =~= raw.subrange(a, b));
                assert forall|i: int| 0 <= i < a implies (#[trigger] raw[i]) == '\\' || is_space(
                    raw[i],
                ) by {
                    if i >= skipped {
                        assert(tail[i - skipped] == raw[i]);
                    }
                }
                assert forall|i: int| b <= i < raw.len() implies is_space(#[trigger] raw[i]) by {
                    assert(tail[i - skipped] == raw[i]);
                }
                assert(noted_at(raw, line.text, a, b));
            } else {
                assert(raw =~= seq![raw[0]] + raw.skip(1));
            }
        }
    }
}

/// A hunk that stays as it is when the line at `n` ends it.
proof fn lemma_hunk_ends(lines: Seq<Seq<char>>, n: int, f: int, h: int, hunk: HunkModel)
    requires
        0 <= n < lines.len(),
        traced(lines, n, f, h, hunk, true),
        ends_hunk(lines[n]),
    ensures
        traced(lines, n + 1, f, h, hunk, false),
{
    let (from, upto, sources) = choose|from: int, upto: int, sources: Seq<int>| #[trigger]
        placed(lines, f, h, hunk, from, upto, sources) && upto == n;
    assert(placed(lines, f, h, hunk, from, upto, sources));
}

/// A hunk that was read whole stays so.
proof fn lemma_hunk_stays(lines: Seq<Seq<char>>, n: int, f: int, h: int, hunk: HunkModel)
    requires
        traced(lines, n, f, h, hunk, false),
    ensures
        traced(lines, n + 1, f, h, hunk, false),
{
    let (from, upto, sources) = choose|from: int, upto: int, sources: Seq<int>| #[trigger]
        placed(lines, f, h, hunk, from, upto, sources) && upto < n && ends_hunk(lines[upto]);
    assert(placed(lines, f, h, hunk, from, upto, sources));
}

/// A line that looks like a header and is none is passed over.
proof fn lemma_hunk_passes(lines: Seq<Seq<char>>, n: int, f: int, h: int, hunk: HunkModel)
    requires
        0 <= n < lines.len(),
        traced(lines, n, f, h, hunk, true),
        is_prefix("@@"@, lines[n]),
        hunk_start(lines[n]) is None,
    ensures
        traced(lines, n + 1, f, h, hunk, true),
{
    let (from, upto, sources) = choose|from: int, upto: int, sources: Seq<int>| #[trigger]
        placed(lines, f, h, hunk, from, upto, sources) && upto == n;
    assert(placed(lines, f, h, hunk, from, n + 1, sources));
}

/// A hunk that takes one more line.
proof fn lemma_hunk_grows(
    lines: Seq<Seq<char>>,
    n: int,
    f: int,
    h: int,
    hunk: HunkModel,
    line: LineModel,
)
    requires
        0 <= n < lines.len(),
        traced(lines, n, f, h, hunk, true),
        says(line, lines[n]),
    ensures
        traced(lines, n + 1, f, h, (HunkModel { lines: hunk.lines.push(line), ..hunk }), true),
{
    let (from, upto, sources) = choose|from: int, upto: int, sources: Seq<int>| #[trigger]
        placed(lines, f, h, hunk, from, upto, sources) && upto == n;
    let grown = HunkModel { lines: hunk.lines.push(line), ..hunk };
    let more = sources.push(n);
    assert forall|k: int| 0 <= k < more.len() implies from < #[trigger] more[k] < n + 1 && says(
        grown.lines[k],
        lines[more[k]],
    ) by {
        if k < sources.len() {
            assert(more[k] == sources[k]);
        }
    }
    assert forall|r: int| from < r < n + 1 implies more.contains(r) || (is_prefix(
        "@@"@,
        #[trigger] lines[r],
    ) && hunk_start(lines[r]) is None) by {
        if r == n {
            assert(more[sources.len() as int] == n);
        } else if sources.contains(r) {
            let k = choose|k: int| 0 <= k < sources.len() && sources[k] == r;
            assert(more[k] == r);
        }
    }
    assert(placed(lines, f, h, grown, from, n + 1, more));
}

#[verifier::rlimit(50)]
proof fn lemma_traced_step(lines: Seq<Seq<char>>, n: int)
    requires
        0 <= n < lines.len(),
        all_traced(lines, n),
    ensures
        all_traced(lines, n + 1),
{
    let raw = lines[n];
    let st = after_lines(lines.take(n));
    let next = after_lines(lines.take(n + 1));
    assert(lines.take(n + 1).drop_last() =~= lines.take(n));
    assert(lines.take(n + 1).last() == raw);
    assert(next == after_line(st, raw));
    lemma_lines_grow(st, raw);
    lemma_body_says(raw, st.old_no, st.new_no);
    reveal_strlit("diff --git ");
    reveal_strlit("@@");
    if is_prefix("@@"@, raw) {
        assert(raw.subrange(0, 2)[0] == "@@"@[0]);
        assert(!is_prefix("diff --git "@, raw)) by {
            if is_prefix("diff --git "@, raw) {
                assert(raw.subrange(0, 11)[0] == "diff --git "@[0]);
            }
        }
    }
    assert(hunk_start(raw) is Some ==> is_prefix("@@"@, raw));
    let last = st.files.len() - 1;
    assert forall|f: int, h: int|
        0 <= f < next.files.len() && 0 <= h < next.files[f].hunks.len() implies traced(
        lines,
        n + 1,
        f,
        h,
        #[trigger] next.files[f].hunks[h],
        is_open(next, f, h),
    ) by {
        let hunk = next.files[f].hunks[h];
        if f < st.files.len() && h < st.files[f].hunks.len() {
            let old = st.files[f].hunks[h];
            assert(traced(lines, n, f, h, old, is_open(st, f, h)));
            if !is_open(st, f, h) {
                assert(hunk == old);
                assert(!is_open(next, f, h));
                lemma_hunk_stays(lines, n, f, h, hunk);
            } else if is_prefix("diff --git "@, raw) || hunk_start(raw) is Some {
                assert(hunk == old);
                lemma_hunk_ends(lines, n, f, h, hunk);
            } else if is_prefix("@@"@, raw) {
                lemma_hunk_passes(lines, n, f, h, hunk);
            } else if let Some(line) = body_line(raw, st.old_no, st.new_no) {
                lemma_hunk_grows(lines, n, f, h, old, line);
                assert(hunk == HunkModel { lines: old.lines.push(line), ..old });
            } else {
                lemma_header_keeps(st.files[last], raw);
                assert(hunk == old);
                lemma_hunk_ends(lines, n, f, h, hunk);
            }
        } else {
            assert(hunk_start(raw) is Some);
            assert(hunk == HunkModel { header: raw, lines: Seq::empty() });
            assert(placed(lines, f, h, hunk, n, n + 1, Seq::<int>::empty()));
        }
    }
    if st.files.len() > 0 && !is_prefix("diff --git "@, raw) {
        lemma_header_keeps(st.files[last], raw);
    }
}

proof fn lemma_all_traced(lines: Seq<Seq<char>>, n: int)
    requires
        0 <= n <= lines.len(),
    ensures
        all_traced(lines, n),
    decreases n,
{
    if n > 0 {
        lemma_all_traced(lines, n - 1);
        lemma_traced_step(lines, n - 1);
    } else {
        assert(lines.take(0) =~= Seq::empty());
    }
}

/// A hunk gives the lines of the patch back. It was read from a run of them: the first is its
/// header, it stands in the section of the hunk's file, behind the headers of the file's hunks
/// before it, and each of the others is one of the hunk's lines, in order and letter for letter, but
/// for those that look like a header and are none. The run ends with the patch, or before a line
/// that belongs to no hunk or opens another.
pub proof fn law_hunks_give_the_patch_back(patch: Seq<char>, f: int, h: int)
    requires
        0 <= f < patch_files(patch).len(),
        0 <= h < patch_files(patch)[f].hunks.len(),
    ensures
        ({
            let lines = text_lines(patch);
            exists|from: int, upto: int, sources: Seq<int>| #[trigger]
                read_from(lines, patch_files(patch)[f].hunks[h], from, upto, sources)
                    && section_count(lines.take(from)) == f + 1 && hunks_before(lines, from) == h
                    && (upto < lines.len() ==> ends_hunk(lines[upto]))
        }),
{
    let lines = text_lines(patch);
    let n = lines.len() as int;
    lemma_all_traced(lines, n);
    assert(lines.take(n) =~= lines);
    let st = after_lines(lines);
    let hunk = st.files[f].hunks[h];
    let open = is_open(st, f, h);
    assert(traced(lines, n, f, h, hunk, open));
    let (from, upto, sources) = choose|from: int, upto: int, sources: Seq<int>| #[trigger]
        placed(lines, f, h, hunk, from, upto, sources) && if open {
            upto == n
        } else {
            upto < n && ends_hunk(lines[upto])
        };
    assert(read_from(lines, hunk, from, upto, sources));
}

/// Every added, deleted or context line of a parsed patch stands in the patch, letter for letter,
/// behind the marker of its kind.
pub proof fn law_lines_give_the_patch_back(patch: Seq<char>, f: int, h: int, k: int)
    requires
        0 <= f < patch_files(patch).len(),
        0 <= h < patch_files(patch)[f].hunks.len(),
        0 <= k < patch_files(patch)[f].hunks[h].lines.len(),
    ensures
        ({
            let line = patch_files(patch)[f].hunks[h].lines[k];
            let lines = text_lines(patch);
            match line.kind {
                LineKind::Add => lines.contains(seq!['+'] + line.text),
                LineKind::Del => lines.contains(seq!['-'] + line.text),
                LineKind::Context => lines.contains(seq![' '] + line.text) || (line.text.len() == 0
                    && lines.contains(Seq::empty())),
                LineKind::Meta => true,
            }
        }),
{
    law_hunks_give_the_patch_back(patch, f, h);
    let lines = text_lines(patch);
    let hunk = patch_files(patch)[f].hunks[h];
    let (from, upto, sources) = choose|from: int, upto: int, sources: Seq<int>| #[trigger]
        read_from(lines, hunk, from, upto, sources) && section_count(lines.take(from)) == f + 1
            && hunks_before(lines, from) == h && (upto < lines.len() ==> ends_hunk(lines[upto]));
    let at = sources[k];
    assert(says(hunk.lines[k], lines[at]));
    assert(lines.contains(lines[at]));
    if lines[at].len() == 0 {
        assert(lines[at] =~= Seq::empty());
    }
}

/// A section has as many hunks as it has hunk headers, however many sections follow.
pub proof fn law_one_hunk_per_header(patch: Seq<char>, n: int)
    requires
        0 < n <= text_lines(patch).len(),
        section_count(text_lines(patch).take(n)) > 0,
        n < text_lines(patch).len() ==> is_prefix("diff --git "@, text_lines(patch)[n]),
    ensures
        patch_files(patch).len() >= section_count(text_lines(patch).take(n)),
        patch_files(patch)[section_count(text_lines(patch).take(n)) - 1].hunks.len()
            == hunks_before(text_lines(patch), n),
{
    let lines = text_lines(patch);
    lemma_all_traced(lines, n);
    let f = section_count(lines.take(n)) - 1;
    if n < lines.len() {
        lemma_finished(lines, n, lines.len() as int, f);
    }
    assert(lines.take(lines.len() as int) =~= lines);
}

/// A file is finished when the next section begins.
proof fn lemma_finished(lines: Seq<Seq<char>>, n: int, m: int, f: int)
    requires
        0 <= n < m <= lines.len(),
        is_prefix("diff --git "@, lines[n]),
        0 <= f < after_lines(lines.take(n)).files.len(),
    ensures
        f < after_lines(lines.take(m)).files.len() - 1,
        after_lines(lines.take(m)).files[f] == after_lines(lines.take(n)).files[f],
    decreases m - n,
{
    assert(lines.take(m).drop_last() =~= lines.take(m - 1));
    assert(lines.take(m).last() == lines[m - 1]);
    if m > n + 1 {
        lemma_finished(lines, n, m - 1, f);
    }
}

/// The lines of the hunks, one after another.
pub open spec fn all_lines(hunks: Seq<HunkModel>) -> Seq<LineModel>
    decreases hunks.len(),
{
    if hunks.len() == 0 {
        Seq::empty()
    } else {
        hunks[0].lines + all_lines(hunks.drop_first())
    }
}

proof fn lemma_kept_are_first(hunks: Seq<HunkModel>, budget: nat)
    ensures
        all_lines(hunks).len() == hunk_lines(hunks),
        all_lines(kept_hunks(hunks, budget)) == all_lines(hunks).take(
            if budget <= all_lines(hunks).len() {
                budget as int
            } else {
                all_lines(hunks).len() as int
            },
        ),
        kept_hunks(hunks, budget).len() <= hunks.len(),
        forall|h: int|
            0 <= h < kept_hunks(hunks, budget).len() ==> (#[trigger] kept_hunks(
                hunks,
                budget,
            )[h]).header == hunks[h].header,
    decreases hunks.len(),
{
    let all = all_lines(hunks);
    let kept = kept_hunks(hunks, budget);
    if hunks.len() == 0 {
        assert(all.take(0) =~= Seq::empty());
    } else {
        lemma_hunk_lines_front(hunks);
        let rest = hunks.drop_first();
        let first = hunks[0].lines;
        if budget == 0 {
            lemma_kept_are_first(rest, 0);
            assert(all.take(0) =~= Seq::empty());
        } else if first.len() > budget {
            lemma_kept_are_first(rest, 0);
            assert(kept.drop_first() =~= Seq::empty());
            assert(all_lines(kept) =~= first.take(budget as int));
            assert(all.take(budget as int) =~= first.take(budget as int));
        } else {
            let left = (budget - first.len()) as nat;
            lemma_kept_are_first(rest, left);
            assert(kept.drop_first() =~= kept_hunks(rest, left));
            let n = if left <= all_lines(rest).len() {
                left as int
            } else {
                all_lines(rest).len() as int
            };
            assert(first + all_lines(rest).take(n) =~= all.take(first.len() + n));
            assert forall|h: int| 0 <= h < kept.len() implies (#[trigger] kept[h]).header
                == hunks[h].header by {
                if h > 0 {
                    assert(kept[h] == kept_hunks(rest, left)[h - 1]);
                    assert(rest[h - 1] == hunks[h]);
                }
            }
        }
    }
}

/// Truncation keeps the first lines of a file, in order and under their hunks' headers, and says of
/// the file what was said before.
pub proof fn law_truncation_keeps_the_first_lines(file: FileModel, max: nat)
    ensures
        ({
            let cut = truncated(file, max);
            let all = all_lines(file.hunks);
            &&& all_lines(cut.hunks) == if all.len() <= max {
                all
            } else {
                all.take(max as int)
            }
            &&& cut.hunks.len() <= file.hunks.len()
            &&& forall|h: int|
                0 <= h < cut.hunks.len() ==> (#[trigger] cut.hunks[h]).header
                    == file.hunks[h].header
            &&& cut.path == file.path && cut.old_path == file.old_path && cut.status == file.status
            &&& cut.binary == file.binary
            &&& cut.additions == file.additions && cut.deletions == file.deletions
            &&& all.len() <= max ==> cut.notices == file.notices
            &&& all.len() > max ==> cut.notices.len() == file.notices.len() + 1
                && cut.notices.drop_last() == file.notices
        }),
{
    lemma_kept_are_first(file.hunks, max);
}

// ---------------------------------------------------------------------------
// What the headers of a patch say
// ---------------------------------------------------------------------------

/// The numbers of a hunk header are read as they are written: `@@ -a +c`, with or without a count
/// behind a comma after each, and with anything behind.
#[verifier::rlimit(50)]
pub proof fn law_hunk_headers_name_their_starts(
    old: u32,
    new: u32,
    old_count: Seq<char>,
    rest: Seq<char>,
)
    requires
        old_count.len() > 0 ==> old_count[0] == ',',
        forall|i: int| 0 <= i < old_count.len() ==> #[trigger] old_count[i] != '+',
        rest.len() > 0 ==> rest[0] == ',' || is_space(rest[0]),
    ensures
        hunk_start(
            "@@ -"@ + decimal(old as nat) + old_count + " +"@ + decimal(new as nat) + rest,
        ) == Some((old, new)),
{
    reveal_strlit("@@");
    reveal_strlit("@@ -");
    reveal_strlit(" +");
    let a = decimal(old as nat);
    let c = decimal(new as nat);
    let line = "@@ -"@ + a + old_count + " +"@ + c + rest;
    assert("@@ -"@ =~= seq!['@', '@', ' ', '-']);
    assert(" +"@ =~= seq![' ', '+']);
    assert("@@"@ =~= seq!['@', '@']);
    lemma_header_parts(a, old_count, c, rest);
    let behind = old_count + seq![' ', '+'] + c + rest;
    lemma_number_after(seq![' '], '-', old, behind);
    let head = seq![' ', '-'] + a + old_count + seq![' '];
    lemma_no_plus_before(old, old_count);
    lemma_number_after(head, '+', new, rest);
}

/// A hunk header, taken apart at either of its signs.
#[verifier::rlimit(50)]
proof fn lemma_header_parts(a: Seq<char>, old_count: Seq<char>, c: Seq<char>, rest: Seq<char>)
    ensures
        ({
            let line = seq!['@', '@', ' ', '-'] + a + old_count + seq![' ', '+'] + c + rest;
            &&& line.len() >= 2
            &&& line.subrange(0, 2) == seq!['@', '@']
            &&& line.skip(2) == seq![' '] + seq!['-'] + a + (old_count + seq![' ', '+'] + c + rest)
            &&& line.skip(2) == (seq![' ', '-'] + a + old_count + seq![' ']) + seq!['+'] + c + rest
        }),
{
    let line = seq!['@', '@', ' ', '-'] + a + old_count + seq![' ', '+'] + c + rest;
    assert(line.subrange(0, 2) =~= seq!['@', '@']);
    let one = seq![' '] + seq!['-'] + a + (old_count + seq![' ', '+'] + c + rest);
    assert(line.skip(2) =~= one);
    let two = (seq![' ', '-'] + a + old_count + seq![' ']) + seq!['+'] + c + rest;
    assert(line.skip(2) =~= two);
}

/// No plus sign comes before the one of the new side.
proof fn lemma_no_plus_before(old: u32, old_count: Seq<char>)
    requires
        forall|i: int| 0 <= i < old_count.len() ==> #[trigger] old_count[i] != '+',
    ensures
        ({
            let head = seq![' ', '-'] + decimal(old as nat) + old_count + seq![' '];
            forall|i: int| 0 <= i < head.len() ==> #[trigger] head[i] != '+'
        }),
{
    let a = decimal(old as nat);
    let head = seq![' ', '-'] + a + old_count + seq![' '];
    crate::text::lemma_decimal(old as nat);
    assert forall|i: int| 0 <= i < head.len() implies #[trigger] head[i] != '+' by {
        if 2 <= i < 2 + a.len() {
            assert(head[i] == a[i - 2]);
            assert(crate::text::is_digit(a[i - 2]));
        } else if 2 + a.len() <= i < head.len() - 1 {
            assert(head[i] == old_count[i - 2 - a.len()]);
        }
    }
}

/// A number behind a sign is read as it is written.
proof fn lemma_number_after(head: Seq<char>, sign: char, n: u32, rest: Seq<char>)
    requires
        forall|i: int| 0 <= i < head.len() ==> #[trigger] head[i] != sign,
        rest.len() > 0 ==> rest[0] == ',' || is_space(rest[0]),
    ensures
        number_after(head + seq![sign] + decimal(n as nat) + rest, sign) == Some(n),
{
    let digits = decimal(n as nat);
    let s = head + seq![sign] + digits + rest;
    let at = head.len() as int;
    crate::text::lemma_decimal(n as nat);
    law_decimals_are_read_back(n as nat);
    assert(s[at] == sign);
    assert forall|i: int| 0 <= i < at implies s[i] != sign by {
        assert(s[i] == head[i]);
    }
    crate::text::lemma_char_from_unique(s, sign, 0, at);
    assert(s.skip(at + 1) =~= digits + rest);
    lemma_number_ends(digits, rest);
}

/// A run of digits ends where a comma or white space follows.
proof fn lemma_number_ends(digits: Seq<char>, rest: Seq<char>)
    requires
        crate::text::all_digits(digits),
        rest.len() > 0 ==> rest[0] == ',' || is_space(rest[0]),
    ensures
        token_end(digits + rest, 0) == digits.len(),
        (digits + rest).take(digits.len() as int) == digits,
{
    let s = digits + rest;
    assert forall|i: int| 0 <= i < digits.len() implies s[i] != ',' && !is_space(s[i]) by {
        assert(s[i] == digits[i]);
        assert(crate::text::is_digit(digits[i]));
    }
    if rest.len() > 0 {
        assert(s[digits.len() as int] == rest[0]);
    }
    lemma_token_end(s, 0, digits.len() as int);
    assert(s.take(digits.len() as int) =~= digits);
}

proof fn lemma_token_end(s: Seq<char>, from: int, at: int)
    requires
        0 <= from <= at <= s.len(),
        forall|i: int| from <= i < at ==> s[i] != ',' && !is_space(s[i]),
        at < s.len() ==> s[at] == ',' || is_space(s[at]),
    ensures
        token_end(s, from) == at,
    decreases at - from,
{
    if from < at {
        lemma_token_end(s, from + 1, at);
    }
}

/// Text without blanks around it is left as it is.
proof fn lemma_bare(s: Seq<char>)
    requires
        s.len() > 0 ==> !is_space(s[0]) && !is_space(s.last()),
    ensures
        trim(s) == s,
{
}

/// The tail of a section's line names the file on both sides, whatever its paths are, if they need
/// no quotes and the new one cannot be mistaken for two.
#[verifier::rlimit(50)]
pub proof fn law_section_paths_are_read_back(old: Seq<char>, new: Seq<char>)
    requires
        old.len() > 0 ==> !is_space(old.last()),
        new.len() > 0 ==> !is_space(new.last()),
        forall|i: int| !#[trigger] crate::text::occurs_at(new, " b/"@, i),
    ensures
        git_paths("a/"@ + old + " b/"@ + new) == (old, new),
{
    reveal_strlit("a/");
    reveal_strlit("b/");
    reveal_strlit(" b/");
    let rest = "a/"@ + old + " b/"@ + new;
    let at = 2 + old.len() as int;
    assert(rest.subrange(at, at + 3) =~= " b/"@);
    assert forall|i: int| at < i <= rest.len() - 3 implies !crate::text::occurs_at(
        rest,
        " b/"@,
        i,
    ) by {
        if crate::text::occurs_at(rest, " b/"@, i) {
            assert(rest.subrange(i, i + 3)[0] == ' ');
            assert(rest[i] == ' ');
            assert(rest[at + 1] == 'b' && rest[at + 2] == '/');
            assert(i >= at + 3);
            assert(new.subrange(i - at - 3, i - at) =~= rest.subrange(i, i + 3));
            assert(crate::text::occurs_at(new, " b/"@, i - at - 3));
        }
    }
    crate::text::lemma_last_at_unique(rest, " b/"@, at);
    let x = "a/"@ + old;
    let y = "b/"@ + new;
    assert(rest.take(at) =~= x);
    assert(rest.skip(at + 1) =~= y);
    assert(x[0] == 'a' && y[0] == 'b');
    assert(old.len() > 0 ==> x.last() == old.last());
    assert(new.len() > 0 ==> y.last() == new.last());
    assert(x.last() == '/' || !is_space(x.last()));
    lemma_bare(x);
    lemma_bare(y);
    assert(x.subrange(0, 2) =~= "a/"@);
    assert(y.subrange(0, 2) =~= "b/"@);
    assert(x.skip(2) =~= old);
    assert(y.skip(2) =~= new);
}

/// The parser after one more line, given what it has.
proof fn lemma_after_push(lines: Seq<Seq<char>>, raw: Seq<char>)
    ensures
        after_lines(lines.push(raw)) == after_line(after_lines(lines), raw),
{
    assert(lines.push(raw).drop_last() =~= lines);
}

/// A `diff --git` line opens a file of its own, whatever came before: it has the new side's path,
/// the old one where that differs, and no changes yet. The files before it stay as they are.
pub proof fn law_sections_open_files(lines: Seq<Seq<char>>, old: Seq<char>, new: Seq<char>)
    requires
        old.len() > 0 ==> !is_space(old.last()),
        new.len() > 0 ==> !is_space(new.last()),
        forall|i: int| !#[trigger] crate::text::occurs_at(new, " b/"@, i),
    ensures
        ({
            let before = after_lines(lines).files;
            let after = after_lines(
                lines.push("diff --git "@ + ("a/"@ + old + " b/"@ + new)),
            ).files;
            let file = after.last();
            &&& after.len() == before.len() + 1
            &&& after.drop_last() == before
            &&& file.path == new
            &&& file.old_path == if old == new {
                None
            } else {
                Some(old)
            }
            &&& file.status == FileStatus::Modified
            &&& !file.binary
            &&& file.notices.len() == 0
            &&& file.hunks.len() == 0
        }),
{
    reveal_strlit("diff --git ");
    let rest = "a/"@ + old + " b/"@ + new;
    let raw = "diff --git "@ + rest;
    lemma_after_push(lines, raw);
    law_section_paths_are_read_back(old, new);
    assert(raw.subrange(0, 11) =~= "diff --git "@);
    assert(raw.skip(11) =~= rest);
    let before = after_lines(lines).files;
    assert(after_lines(lines.push(raw)).files.drop_last() =~= before);
}

/// A text that differs from another in one place does not begin with it.
proof fn lemma_no_prefix(p: Seq<char>, s: Seq<char>, i: int)
    requires
        0 <= i < p.len(),
        i < s.len() ==> s[i] != p[i],
    ensures
        !is_prefix(p, s),
{
    if is_prefix(p, s) {
        assert(s.subrange(0, p.len() as int)[i] == s[i]);
    }
}

/// The parser after a line of a file's header that begins like none of a hunk's lines.
proof fn lemma_header_line(lines: Seq<Seq<char>>, lead: Seq<char>, rest: Seq<char>)
    requires
        after_lines(lines).files.len() > 0,
        lead.len() > 1,
        lead[0] != 'd' || lead[1] != 'i',
        lead[0] != '@',
        !after_lines(lines).in_hunk || (lead[0] != ' ' && lead[0] != '+' && lead[0] != '-'
            && lead[0] != '\\'),
    ensures
        ({
            let before = after_lines(lines).files;
            let after = after_lines(lines.push(lead + rest)).files;
            &&& after.len() == before.len()
            &&& after.drop_last() == before.drop_last()
            &&& after.last() == with_header(before.last(), lead + rest)
        }),
        is_prefix(lead, lead + rest),
        (lead + rest).skip(lead.len() as int) == rest,
        forall|i: int| 0 <= i < lead.len() ==> #[trigger] (lead + rest)[i] == lead[i],
{
    reveal_strlit("diff --git ");
    reveal_strlit("@@");
    let raw = lead + rest;
    let st = after_lines(lines);
    lemma_after_push(lines, raw);
    assert(raw.subrange(0, lead.len() as int) =~= lead);
    assert(raw.skip(lead.len() as int) =~= rest);
    if lead[0] == 'd' {
        lemma_no_prefix("diff --git "@, raw, 1);
    } else {
        lemma_no_prefix("diff --git "@, raw, 0);
    }
    lemma_no_prefix("@@"@, raw, 0);
    lemma_body_says(raw, st.old_no, st.new_no);
    assert(after_lines(lines.push(raw)) == after_header(st, raw));
    assert(after_header(st, raw).files.drop_last() =~= st.files.drop_last());
}

/// The lines of a file's header tell what became of it: that it is new, that it is deleted, from
/// where and to where it was renamed, that it is binary, and the mode it has now. They say so of the
/// file of their section, whatever came before, and change nothing else of it.
#[verifier::rlimit(50)]
pub proof fn law_headers_tell_what_became_of_a_file(lines: Seq<Seq<char>>, rest: Seq<char>)
    requires
        after_lines(lines).files.len() > 0,
        rest.len() > 0 ==> !is_space(rest[0]) && !is_space(rest.last()),
    ensures
        ({
            let file = after_lines(lines).files.last();
            let new = after_lines(lines.push("new file mode"@ + rest)).files.last();
            let gone = after_lines(lines.push("deleted file mode"@ + rest)).files.last();
            let from = after_lines(lines.push("rename from "@ + rest)).files.last();
            let to = after_lines(lines.push("rename to "@ + rest)).files.last();
            let binary = after_lines(lines.push("Binary files"@ + rest)).files.last();
            let packed = after_lines(lines.push("GIT binary patch"@ + rest)).files.last();
            let mode = after_lines(lines.push("new mode "@ + rest)).files.last();
            &&& new == (FileModel { status: FileStatus::Added, ..file })
            &&& gone == (FileModel { status: FileStatus::Deleted, ..file })
            &&& from == (FileModel { status: FileStatus::Renamed, old_path: Some(rest), ..file })
            &&& to == (FileModel { status: FileStatus::Renamed, path: rest, ..file })
            &&& binary == (FileModel { binary: true, ..file })
            &&& packed == (FileModel { binary: true, ..file })
            &&& mode == (FileModel {
                notices: file.notices.push("Mode changed to "@ + rest),
                ..file
            })
        }),
{
    reveal_strlit("new file mode");
    reveal_strlit("deleted file mode");
    reveal_strlit("rename from ");
    reveal_strlit("rename to ");
    reveal_strlit("Binary files");
    reveal_strlit("GIT binary patch");
    reveal_strlit("new mode ");
    lemma_bare(rest);
    lemma_header_line(lines, "new file mode"@, rest);
    lemma_header_line(lines, "deleted file mode"@, rest);
    lemma_no_prefix("new file mode"@, "deleted file mode"@ + rest, 0);
    lemma_header_line(lines, "rename from "@, rest);
    lemma_no_prefix("new file mode"@, "rename from "@ + rest, 0);
    lemma_no_prefix("deleted file mode"@, "rename from "@ + rest, 0);
    lemma_header_line(lines, "rename to "@, rest);
    lemma_no_prefix("new file mode"@, "rename to "@ + rest, 0);
    lemma_no_prefix("deleted file mode"@, "rename to "@ + rest, 0);
    lemma_no_prefix("rename from "@, "rename to "@ + rest, 7);
    lemma_header_line(lines, "Binary files"@, rest);
    lemma_no_prefix("new file mode"@, "Binary files"@ + rest, 0);
    lemma_no_prefix("deleted file mode"@, "Binary files"@ + rest, 0);
    lemma_no_prefix("rename from "@, "Binary files"@ + rest, 0);
    lemma_no_prefix("rename to "@, "Binary files"@ + rest, 0);
    lemma_header_line(lines, "GIT binary patch"@, rest);
    lemma_no_prefix("new file mode"@, "GIT binary patch"@ + rest, 0);
    lemma_no_prefix("deleted file mode"@, "GIT binary patch"@ + rest, 0);
    lemma_no_prefix("rename from "@, "GIT binary patch"@ + rest, 0);
    lemma_no_prefix("rename to "@, "GIT binary patch"@ + rest, 0);
    lemma_header_line(lines, "new mode "@, rest);
    lemma_no_prefix("new file mode"@, "new mode "@ + rest, 4);
    lemma_no_prefix("deleted file mode"@, "new mode "@ + rest, 0);
    lemma_no_prefix("rename from "@, "new mode "@ + rest, 0);
    lemma_no_prefix("rename to "@, "new mode "@ + rest, 0);
    lemma_no_prefix("Binary files"@, "new mode "@ + rest, 0);
    lemma_no_prefix("GIT binary patch"@, "new mode "@ + rest, 0);
}

/// Outside a hunk the `---` and `+++` lines name a file's two sides: no old side makes it new, no
/// new side makes it deleted, and the new side's path is the file's unless an old one is known.
#[verifier::rlimit(50)]
pub proof fn law_side_lines_name_the_sides(lines: Seq<Seq<char>>, path: Seq<char>)
    requires
        after_lines(lines).files.len() > 0,
        !after_lines(lines).in_hunk,
        path.len() > 0 ==> !is_space(path.last()),
    ensures
        ({
            let file = after_lines(lines).files.last();
            let new = after_lines(lines.push("--- "@ + "/dev/null"@)).files.last();
            let gone = after_lines(lines.push("+++ "@ + "/dev/null"@)).files.last();
            let there = after_lines(lines.push("+++ "@ + ("b/"@ + path))).files.last();
            let was = after_lines(lines.push("--- "@ + ("a/"@ + path))).files.last();
            &&& new == (FileModel { status: FileStatus::Added, ..file })
            &&& gone == (FileModel { status: FileStatus::Deleted, ..file })
            &&& there == if file.old_path is None {
                FileModel { path, ..file }
            } else {
                file
            }
            &&& was == file
        }),
{
    reveal_strlit("new file mode");
    reveal_strlit("deleted file mode");
    reveal_strlit("rename from ");
    reveal_strlit("rename to ");
    reveal_strlit("Binary files");
    reveal_strlit("GIT binary patch");
    reveal_strlit("new mode ");
    reveal_strlit("--- ");
    reveal_strlit("+++ ");
    reveal_strlit("/dev/null");
    reveal_strlit("a/");
    reveal_strlit("b/");
    let nowhere = "/dev/null"@;
    let b = "b/"@ + path;
    let a = "a/"@ + path;
    lemma_bare(nowhere);
    assert(path.len() > 0 ==> b.last() == path.last() && a.last() == path.last());
    lemma_bare(b);
    lemma_bare(a);
    assert(b[0] == 'b' && nowhere[0] == '/' && a[0] == 'a');
    assert(b.subrange(0, 2) =~= "b/"@);
    assert(b.skip(2) =~= path);
    lemma_side_line(lines, "--- "@, nowhere);
    lemma_side_line(lines, "+++ "@, nowhere);
    lemma_side_line(lines, "+++ "@, b);
    lemma_side_line(lines, "--- "@, a);
    lemma_no_prefix("+++ "@, "--- "@ + nowhere, 0);
    lemma_no_prefix("+++ "@, "--- "@ + a, 0);
}

proof fn lemma_side_line(lines: Seq<Seq<char>>, lead: Seq<char>, rest: Seq<char>)
    requires
        after_lines(lines).files.len() > 0,
        !after_lines(lines).in_hunk,
        lead.len() > 1,
        lead[0] == '+' || lead[0] == '-',
    ensures
        ({
            let raw = lead + rest;
            &&& after_lines(lines.push(raw)).files.last() == with_header(
                after_lines(lines).files.last(),
                raw,
            )
            &&& is_prefix(lead, raw)
            &&& raw.skip(lead.len() as int) == rest
            &&& raw[0] == lead[0]
            &&& !is_prefix("new file mode"@, raw)
            &&& !is_prefix("deleted file mode"@, raw)
            &&& !is_prefix("rename from "@, raw)
            &&& !is_prefix("rename to "@, raw)
            &&& !is_prefix("Binary files"@, raw)
            &&& !is_prefix("GIT binary patch"@, raw)
            &&& !is_prefix("new mode "@, raw)
        }),
{
    reveal_strlit("new file mode");
    reveal_strlit("deleted file mode");
    reveal_strlit("rename from ");
    reveal_strlit("rename to ");
    reveal_strlit("Binary files");
    reveal_strlit("GIT binary patch");
    reveal_strlit("new mode ");
    let raw = lead + rest;
    lemma_header_line(lines, lead, rest);
    lemma_no_prefix("new file mode"@, raw, 0);
    lemma_no_prefix("deleted file mode"@, raw, 0);
    lemma_no_prefix("rename from "@, raw, 0);
    lemma_no_prefix("rename to "@, raw, 0);
    lemma_no_prefix("Binary files"@, raw, 0);
    lemma_no_prefix("GIT binary patch"@, raw, 0);
    lemma_no_prefix("new mode "@, raw, 0);
}

/// A line of a parsed patch is cited where it stands: a deleted one by its number in the original
/// file, an added or unchanged one by its number in the changed file, and a note not at all.
pub proof fn law_lines_are_cited_where_they_stand(patch: Seq<char>, f: int, h: int, k: int)
    requires
        0 <= f < patch_files(patch).len(),
        0 <= h < patch_files(patch)[f].hunks.len(),
        0 <= k < patch_files(patch)[f].hunks[h].lines.len(),
    ensures
        ({
            let line = patch_files(patch)[f].hunks[h].lines[k];
            match line.kind {
                LineKind::Del => line.old_no is Some && anchor_of(line) == Some(
                    (CommentSide::Old, line.old_no->0),
                ),
                LineKind::Add | LineKind::Context => line.new_no is Some && anchor_of(line) == Some(
                    (CommentSide::New, line.new_no->0),
                ),
                LineKind::Meta => anchor_of(line) is None,
            }
        }),
{
    law_parsed_files_are_sound(patch);
    let file = patch_files(patch)[f];
    assert(sound(file));
    assert(numbered(file.hunks[h]));
    let line = file.hunks[h].lines[k];
    assert(line == file.hunks[h].lines[k]);
}

/// The notices of a file begin with what became of it, say then whether it is binary, and end with
/// what the parser noted; a file that only changed has nothing to say of itself.
pub proof fn law_notices_tell_what_became_of_a_file(file: FileModel)
    ensures
        ({
            let notices = notices_of(file);
            let own: int = (if file.status == FileStatus::Modified {
                0int
            } else {
                1int
            }) + (if file.binary {
                1int
            } else {
                0int
            });
            &&& notices.len() == own + file.notices.len()
            &&& notices.skip(own) == file.notices
            &&& file.status == FileStatus::Added ==> notices[0] == "New file"@
            &&& file.status == FileStatus::Deleted ==> notices[0] == "Deleted file"@
            &&& file.status == FileStatus::Renamed && file.old_path is Some ==> notices[0]
                == "Renamed from "@ + file.old_path->0
            &&& file.binary ==> notices[own - 1] == "Binary file — contents not shown"@
        }),
{
    let own: int = (if file.status == FileStatus::Modified {
        0int
    } else {
        1int
    }) + (if file.binary {
        1int
    } else {
        0int
    });
    assert(notices_of(file).skip(own) =~= file.notices);
}

/// A path in quotes is the path between them, where nothing in it is escaped.
pub proof fn law_quoted_paths_are_unquoted(path: Seq<char>)
    requires
        forall|i: int| 0 <= i < path.len() ==> #[trigger] path[i] != '\\' && path[i] != '"',
    ensures
        unquoted(seq!['"'] + path + seq!['"']) == path,
{
    reveal_strlit("\\\"");
    reveal_strlit("\\\\");
    let s = seq!['"'] + path + seq!['"'];
    assert(s[0] == '"' && s.last() == '"');
    lemma_bare(s);
    assert(s.subrange(1, s.len() - 1) =~= path);
    lemma_nothing_replaced(path, "\\\""@, "\""@);
    lemma_nothing_replaced(path, "\\\\"@, "\\"@);
}

proof fn lemma_nothing_replaced(s: Seq<char>, pat: Seq<char>, with: Seq<char>)
    requires
        pat.len() > 0,
        pat[0] == '\\',
        forall|i: int| 0 <= i < s.len() ==> #[trigger] s[i] != '\\',
    ensures
        replace_all(s, pat, with) == s,
{
    crate::text::lemma_first_from(s, pat, 0);
    if crate::text::first_at(s, pat) is Some {
        let at = crate::text::first_at(s, pat)->0;
        assert(crate::text::occurs_at(s, pat, at));
        assert(s.subrange(at, at + pat.len())[0] == s[at]);
    }
}

/// In a quoted path an escaped quote is a quote, and an escaped backslash a backslash.
pub proof fn law_escapes_in_quoted_paths_are_read(x: Seq<char>, y: Seq<char>)
    requires
        forall|i: int| 0 <= i < x.len() ==> #[trigger] x[i] != '\\' && x[i] != '"',
        forall|i: int| 0 <= i < y.len() ==> #[trigger] y[i] != '\\' && y[i] != '"',
    ensures
        unquoted(seq!['"'] + (x + seq!['\\', '"'] + y) + seq!['"']) == x + seq!['"'] + y,
        unquoted(seq!['"'] + (x + seq!['\\', '\\'] + y) + seq!['"']) == x + seq!['\\'] + y,
{
    reveal_strlit("\\\"");
    reveal_strlit("\\\\");
    reveal_strlit("\"");
    reveal_strlit("\\");
    let escaped_quote = "\\\""@;
    let escaped_slash = "\\\\"@;
    assert(escaped_quote =~= seq!['\\', '"']);
    assert(escaped_slash =~= seq!['\\', '\\']);
    assert("\""@ =~= seq!['"']);
    assert("\\"@ =~= seq!['\\']);
    let quoted = x + escaped_quote + y;
    let slashed = x + escaped_slash + y;
    let s = seq!['"'] + quoted + seq!['"'];
    let t = seq!['"'] + slashed + seq!['"'];
    lemma_bare(s);
    lemma_bare(t);
    assert(s.subrange(1, s.len() - 1) =~= quoted);
    assert(t.subrange(1, t.len() - 1) =~= slashed);
    lemma_one_replaced(x, escaped_quote, y, "\""@);
    let plain = x + "\""@ + y;
    assert forall|i: int| 0 <= i < plain.len() implies #[trigger] plain[i] != '\\' by {
        if i < x.len() {
            assert(plain[i] == x[i]);
        } else if i > x.len() {
            assert(plain[i] == y[i - x.len() - 1]);
        }
    }
    lemma_nothing_replaced(plain, escaped_slash, "\\"@);
    assert forall|i: int| !crate::text::occurs_at(slashed, escaped_quote, i) by {
        if crate::text::occurs_at(slashed, escaped_quote, i) {
            let w = slashed.subrange(i, i + 2);
            assert(w[1] == slashed[i + 1]);
            if i + 1 < x.len() {
                assert(slashed[i + 1] == x[i + 1]);
            } else if i + 1 >= x.len() + 2 {
                assert(slashed[i + 1] == y[i + 1 - x.len() - 2]);
            }
        }
    }
    crate::text::lemma_first_from(slashed, escaped_quote, 0);
    assert(replace_all(slashed, escaped_quote, "\""@) == slashed);
    lemma_one_replaced(x, escaped_slash, y, "\\"@);
}

/// The only place of a pattern gives way.
proof fn lemma_one_replaced(x: Seq<char>, pat: Seq<char>, y: Seq<char>, with: Seq<char>)
    requires
        pat.len() > 0,
        pat[0] == '\\',
        forall|i: int| 0 <= i < x.len() ==> #[trigger] x[i] != '\\',
        forall|i: int| 0 <= i < y.len() ==> #[trigger] y[i] != '\\',
    ensures
        replace_all(x + pat + y, pat, with) == x + with + y,
{
    let s = x + pat + y;
    let n = x.len() as int;
    assert(s.subrange(n, n + pat.len()) =~= pat);
    assert forall|i: int| 0 <= i < n implies !crate::text::occurs_at(s, pat, i) by {
        if crate::text::occurs_at(s, pat, i) {
            assert(s.subrange(i, i + pat.len())[0] == s[i]);
            assert(s[i] == x[i]);
        }
    }
    crate::text::lemma_first_from_unique(s, pat, 0, n);
    assert(s.take(n) =~= x);
    assert(s.skip(n + pat.len()) =~= y);
    lemma_nothing_replaced(y, pat, with);
}

} // verus!
