//! The diff line under the pointer, and the note that is being written on one.

use vstd::prelude::*;

use crate::comments::{CommentSide, DiffComment};
use crate::ids::is_uuid_v4;
use crate::pane::{CommentDraft, HoverRow};
use crate::patch::FileDiff;
use crate::rows::DraftModel;
use crate::search::{as_opt_str, copy_opt, first_where, lemma_first_found};
use crate::text::{chars_of, decimal, opt_text, push_decimal, same_str, string_of, trim, trimmed};

verus! {

/// What is pinned to lines of the diff: at most one hovered row, and at most one draft — a second
/// `+` moves the card rather than stacking two half-written notes.
pub struct Pins {
    pub draft: Option<CommentDraft>,
    pub hover: Option<HoverRow>,
}

/// The hovered path, side and line.
pub open spec fn hover_model(hover: Option<HoverRow>) -> DraftModel {
    match hover {
        Some(row) => Some((row.path@, row.side, row.line)),
        None => None,
    }
}

/// The path, side and line that a draft is pinned to.
pub open spec fn pinned_at(draft: Option<CommentDraft>) -> DraftModel {
    match draft {
        Some(d) => Some((d.path@, d.side, d.line)),
        None => None,
    }
}

/// Which of the files have this path.
pub open spec fn at_path(files: Seq<FileDiff>, path: Seq<char>) -> spec_fn(int) -> bool {
    |i: int| files[i].path@ == path
}

/// The pre-rename path of the first file with this path.
pub open spec fn old_path_in(files: Seq<FileDiff>, path: Seq<char>) -> Option<Seq<char>> {
    match first_where(files.len(), at_path(files, path)) {
        Some(i) => opt_text(files[i].old_path),
        None => None,
    }
}

/// The parsed diff's pre-rename path for `path`, when the file moved.
pub fn old_path_of(files: &Vec<FileDiff>, path: &str) -> (r: Option<String>)
    ensures
        opt_text(r) == old_path_in(files@, path@),
{
    let ghost pred = at_path(files@, path@);
    for i in 0..files.len()
        invariant
            pred == at_path(files@, path@),
            first_where(i as nat, pred) is None,
    {
        if same_str(files[i].path.as_str(), path) {
            proof {
                lemma_first_found(files@.len(), pred, i as int);
            }
            return copy_opt(&files[i].old_path);
        }
    }
    None
}

impl CommentDraft {
    pub open spec fn cited(self) -> Seq<char> {
        match (self.side, self.old_path) {
            (CommentSide::Old, Some(old)) => old@,
            _ => self.path@,
        }
    }

    /// Mirrors [`DiffComment::cite_path`] for the not-yet-staged note.
    pub fn draft_cite_path(&self) -> (r: &str)
        ensures
            r@ == self.cited(),
    {
        match self.side {
            CommentSide::Old => match &self.old_path {
                Some(old) => old.as_str(),
                None => self.path.as_str(),
            },
            CommentSide::New => self.path.as_str(),
        }
    }

    /// The header of the draft's card: the path and line that the staged card will cite.
    pub fn heading(&self) -> (r: String)
        ensures
            r@ == self.cited().push(':') + decimal(self.line as nat),
    {
        let mut r = self.draft_cite_path().to_owned();
        r.push(':');
        push_decimal(&mut r, self.line as u64);
        r
    }
}

impl Pins {
    /// The pointer moved onto a line, or off all lines. Returns whether that changed anything.
    pub fn set_hover(&mut self, path: &str, anchor: Option<(CommentSide, u32)>) -> (changed: bool)
        ensures
            final(self).draft == old(self).draft,
            hover_model(final(self).hover) == match anchor {
                Some((side, line)) => Some((path@, side, line)),
                None => None,
            },
            changed == (hover_model(final(self).hover) != hover_model(old(self).hover)),
    {
        match anchor {
            Some((side, line)) => {
                let same = match &self.hover {
                    Some(row) => same_str(row.path.as_str(), path) && row.side == side && row.line
                        == line,
                    None => false,
                };
                if same {
                    return false;
                }
                self.hover = Some(HoverRow { path: path.to_owned(), side, line });
                true
            },
            None => {
                let changed = self.hover.is_some();
                self.hover = None;
                changed
            },
        }
    }

    /// The pointer left a line: the hover goes, unless it is on another line by now.
    pub fn clear_hover_at(&mut self, path: &str, side: CommentSide, line: u32) -> (changed: bool)
        ensures
            final(self).draft == old(self).draft,
            changed == (hover_model(old(self).hover) == Some((path@, side, line))),
            hover_model(final(self).hover) == if changed {
                None
            } else {
                hover_model(old(self).hover)
            },
    {
        let there = match &self.hover {
            Some(row) => same_str(row.path.as_str(), path) && row.side == side && row.line == line,
            None => false,
        };
        if there {
            self.hover = None;
        }
        there
    }

    /// Whether a line is the hovered one.
    pub fn hovered(&self, path: &str, side: CommentSide, line: u32) -> (r: bool)
        ensures
            r == (hover_model(self.hover) == Some((path@, side, line))),
    {
        match &self.hover {
            Some(row) => same_str(row.path.as_str(), path) && row.side == side && row.line == line,
            None => false,
        }
    }

    /// Open a draft on a line, in place of any other.
    pub fn open_draft(
        &mut self,
        files: &Vec<FileDiff>,
        key: &str,
        path: &str,
        side: CommentSide,
        line: u32,
    )
        ensures
            final(self).hover == old(self).hover,
            final(self).draft matches Some(d) && {
                &&& d.key@ == key@
                &&& d.path@ == path@
                &&& opt_text(d.old_path) == old_path_in(files@, path@)
                &&& d.side == side
                &&& d.line == line
            },
    {
        self.draft = Some(
            CommentDraft {
                key: key.to_owned(),
                path: path.to_owned(),
                old_path: old_path_of(files, path),
                side,
                line,
            },
        );
    }

    pub fn cancel_draft(&mut self)
        ensures
            final(self).hover == old(self).hover,
            final(self).draft is None,
    {
        self.draft = None;
    }

    /// A draft belongs to the checkout it was opened over. Chat navigation
    /// swaps both the diff under it and the composer it would stage onto, so
    /// the half-written note is dropped rather than following the user across.
    pub fn discard_stale_draft(&mut self, key: &str) -> (dropped: bool)
        ensures
            final(self).hover == old(self).hover,
            dropped == (old(self).draft matches Some(d) && d.key@ != key@),
            final(self).draft == if dropped {
                None
            } else {
                old(self).draft
            },
    {
        let stale = match &self.draft {
            Some(draft) => !same_str(draft.key.as_str(), key),
            None => false,
        };
        if stale {
            self.draft = None;
        }
        stale
    }

    pub fn draft_anchor(&self) -> (r: Option<(&str, CommentSide, u32)>)
        ensures
            crate::rows::draft_model(r) == pinned_at(self.draft),
    {
        match &self.draft {
            Some(draft) => Some((draft.path.as_str(), draft.side, draft.line)),
            None => None,
        }
    }

    pub fn draft_anchor_in(&self, path: &str) -> (r: Option<(CommentSide, u32)>)
        ensures
            r == crate::rows::draft_in(pinned_at(self.draft), path@),
    {
        match &self.draft {
            Some(draft) => if same_str(draft.path.as_str(), path) {
                Some((draft.side, draft.line))
            } else {
                None
            },
            None => None,
        }
    }

    /// The draft's note is done. A blank note stages nothing; otherwise the result is the composer
    /// to stage onto — the draft's own, even if the selection moved under it — and the comment.
    pub fn commit_draft(&mut self, text: &str) -> (r: Option<(String, DiffComment)>)
        ensures
            final(self).hover == old(self).hover,
            final(self).draft is None,
            r is Some <==> old(self).draft is Some && trim(text@).len() > 0,
            r is Some ==> {
                let draft = old(self).draft->0;
                let (key, comment) = r->0;
                &&& key@ == draft.key@
                &&& comment.path@ == draft.path@
                &&& opt_text(comment.old_path) == opt_text(draft.old_path)
                &&& comment.side == draft.side
                &&& comment.line == draft.line
                &&& comment.body@ == trim(text@)
                &&& is_uuid_v4(comment.id@)
            },
    {
        let draft = match self.draft.take() {
            Some(draft) => draft,
            None => {
                return None;
            },
        };
        let chars = chars_of(text);
        let body = trimmed(chars.as_slice());
        if body.len() == 0 {
            return None;
        }
        let body = string_of(body);
        let comment = DiffComment::new(
            draft.path.as_str(),
            draft.side,
            draft.line,
            body.as_str(),
        ).renamed_from(as_opt_str(&draft.old_path));
        Some((draft.key, comment))
    }
}

/// A draft knows the path from before a rename of the first file that has its path.
pub proof fn law_drafts_know_the_old_path(files: Seq<FileDiff>, path: Seq<char>)
    ensures
        match old_path_in(files, path) {
            Some(old) => exists|i: int|
                0 <= i < files.len() && (#[trigger] files[i]).path@ == path && opt_text(
                    files[i].old_path,
                ) == Some(old),
            None => forall|i: int|
                0 <= i < files.len() && (#[trigger] files[i]).path@ == path && (forall|j: int|
                    0 <= j < i ==> (#[trigger] files[j]).path@ != path) ==> files[i].old_path is None,
        },
{
    let same = at_path(files, path);
    crate::search::lemma_first_where(files.len(), same);
    assert forall|i: int| 0 <= i < files.len() implies same(i) == ((#[trigger] files[i]).path@
        == path) by {}
    let at = first_where(files.len(), same);
    if at is Some {
        assert(files[at->0].path@ == path);
        assert forall|i: int|
            0 <= i < files.len() && (#[trigger] files[i]).path@ == path && (forall|j: int|
                0 <= j < i ==> (#[trigger] files[j]).path@ != path) implies i == at->0 by {
            assert(files[at->0].path@ == path);
        }
    }
}

/// A draft cites what its comment will cite: on the original side the path from before a rename,
/// where there was one, and otherwise the path as it is now.
pub proof fn law_drafts_cite_where_their_line_lives(draft: CommentDraft)
    ensures
        draft.side == CommentSide::New ==> draft.cited() == draft.path@,
        draft.side == CommentSide::Old && draft.old_path is None ==> draft.cited() == draft.path@,
        draft.side == CommentSide::Old && draft.old_path is Some ==> draft.cited() == (
        draft.old_path->0)@,
{
}

} // verus!
