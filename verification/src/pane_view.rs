//! What the changes pane shows: content state, header controls, menus and rows.

use vstd::prelude::*;

use crate::changes::{
    clean_message, clean_text, diff_phase, phase_of, scope_label, scope_text, DiffPhase, DiffScope,
};
use crate::comments::{CommentSide, DiffComment};
use crate::drafts::{hover_model, Pins};
use crate::folds::{DiffPane, FileFold};
use crate::pane::{first_chars, leading, Changes, CommentDraft, PaneContext, ParsedDiff};
use crate::patch::{
    anchor_of, file_models, file_notices, line_anchor, notices_of, parse_patch, patch_files,
    DiffLine, FileDiff, LineKind,
};
use crate::proto::CheckoutDiff;
use crate::row_places::law_a_file_has_its_own_comments;
use crate::rows::{anchors_in, draft_model, DiffRow};
use crate::search::{as_opt_str, is_text, position, position_of};
use crate::text::{
    chars_of, contains, decimal, holds, opt_text, push_decimal, same_str, texts,
};

verus! {

// ---------------------------------------------------------------------------
// Parsing
// ---------------------------------------------------------------------------

/// What a state change asks of the pane's parsed content.
#[derive(Debug, PartialEq, Eq)]
pub enum ContentPlan {
    /// The history pane is on show: load it.
    History,
    /// No diff is active: drop what was parsed.
    Drop,
    /// The parsed content is the active diff's: only its comment cards may have moved.
    Keep,
    /// The active diff is to be parsed under this key.
    Parse(String),
}

impl Changes {
    /// Reconcile parsed content with the currently-active diff.
    pub fn content_plan(&self, cx: &PaneContext, parsed_key: Option<&str>) -> (r: ContentPlan)
        ensures
            match (self.scope, self.active_model(*cx)) {
                (DiffScope::History, _) => r is History,
                (_, None) => r is Drop,
                (_, Some(diff)) => {
                    let key = self.parse_key_text(diff);
                    if crate::text::opt_str(parsed_key) == Some(key) {
                        r is Keep
                    } else {
                        r matches ContentPlan::Parse(k) && k@ == key
                    }
                },
            },
    {
        if self.scope == DiffScope::History {
            return ContentPlan::History;
        }
        match self.active_diff(cx) {
            None => ContentPlan::Drop,
            Some(diff) => {
                let key = self.parse_key(diff);
                let same = match parsed_key {
                    Some(k) => same_str(k, key.as_str()),
                    None => false,
                };
                if same {
                    ContentPlan::Keep
                } else {
                    ContentPlan::Parse(key)
                }
            },
        }
    }

    /// Whether a parse that finished under `key` is still the active diff's. Late results for a
    /// superseded diff are dropped.
    pub fn awaits_parse(&self, cx: &PaneContext, key: &str) -> (r: bool)
        ensures
            r == match self.active_model(*cx) {
                Some(diff) => self.parse_key_text(diff) == key@,
                None => false,
            },
    {
        match self.active_diff(cx) {
            Some(diff) => {
                let current = self.parse_key(diff);
                same_str(current.as_str(), key)
            },
            None => false,
        }
    }
}

impl ParsedDiff {
    /// Parse a diff and lay out its rows, every file expanded. The file count is the engine's own
    /// where it has one: a truncated patch holds fewer files than the diff.
    pub fn parse(
        key: String,
        diff: &CheckoutDiff,
        comments: &[DiffComment],
        draft: Option<(&str, CommentSide, u32)>,
    ) -> (r: Self)
        ensures
            r.key == key,
            r.truncated == diff.truncated,
            r.additions == diff.additions,
            r.deletions == diff.deletions,
            r.file_count == if diff.files@.len() > 0 {
                diff.files@.len()
            } else {
                patch_files(diff.patch@).len()
            },
            r.pane.wf(),
            file_models(r.pane.files@) == patch_files(diff.patch@),
            r.pane.folds@.len() == 0,
            r.pane.sections() == Seq::new(
                patch_files(diff.patch@).len(),
                |i: int| r.pane.open_section(i, comments@, draft_model(draft)),
            ),
    {
        let files = parse_patch(diff.patch.as_str());
        assert(file_models(files@).len() == files@.len());
        let file_count = if diff.files.len() > 0 {
            diff.files.len()
        } else {
            files.len()
        };
        let pane = DiffPane::show(files, comments, draft);
        ParsedDiff {
            key,
            truncated: diff.truncated,
            additions: diff.additions,
            deletions: diff.deletions,
            file_count,
            pane,
        }
    }
}

// ---------------------------------------------------------------------------
// Content
// ---------------------------------------------------------------------------

/// What the content area holds.
#[derive(Debug, PartialEq, Eq)]
pub enum PaneContent {
    History,
    /// A scoped fetch failed; `warn` where that was not expected.
    Notice { message: String, warn: bool },
    Preparing,
    Clean(String),
    /// Diff known, parse still running.
    Parsing,
    List,
}

/// What a failed scoped fetch is shown as. "no turn recorded"
/// is the expected pre-first-turn state, not an error; "unknown
/// method" is version skew — the chat's host engine predates
/// GetCheckoutDiff.
pub open spec fn notice_for(message: Seq<char>) -> (Seq<char>, bool) {
    if contains(message, "no turn recorded"@) {
        ("No turn recorded yet — send a message first"@, false)
    } else if contains(message, "unknown method"@) {
        (
            "This chat's device is running an older Zeron — update it to view branch and turn diffs"@,
            false,
        )
    } else {
        (message, true)
    }
}

pub fn scoped_notice(message: &str) -> (r: (String, bool))
    ensures
        (r.0@, r.1) == notice_for(message@),
{
    let chars = chars_of(message);
    let no_turn = chars_of("no turn recorded");
    let unknown = chars_of("unknown method");
    if holds(chars.as_slice(), no_turn.as_slice()) {
        ("No turn recorded yet — send a message first".to_owned(), false)
    } else if holds(chars.as_slice(), unknown.as_slice()) {
        (
            "This chat's device is running an older Zeron — update it to view branch and turn diffs".to_owned(),
            false,
        )
    } else {
        (message.to_owned(), true)
    }
}

impl Changes {
    /// The content area, given whether a parsed diff is there. With no session selected there is
    /// nothing to prepare: the quiet empty state shows, not an endless spinner.
    pub fn content(&self, cx: &PaneContext, parsed: bool) -> (r: PaneContent)
        ensures
            self.scope == DiffScope::History ==> r is History,
            self.scope != DiffScope::History ==> {
                let failed = cx.chat is Some && self.scope != DiffScope::WorkingTree
                    && self.scoped_error is Some;
                let phase = if cx.chat is None {
                    DiffPhase::Clean
                } else {
                    phase_of(self.active_model(*cx))
                };
                &&& failed ==> {
                    let (text, warned) = notice_for(self.scoped_error->0@);
                    r matches PaneContent::Notice { message, warn } && message@ == text && warn
                        == warned
                }
                &&& !failed ==> match phase {
                    DiffPhase::Preparing => r is Preparing,
                    DiffPhase::Clean => r matches PaneContent::Clean(m) && m@ == clean_text(
                        self.scope,
                        opt_text(self.base_ref),
                    ),
                    DiffPhase::List => if parsed {
                        r is List
                    } else {
                        r is Parsing
                    },
                }
            },
    {
        if self.scope == DiffScope::History {
            return PaneContent::History;
        }
        let no_chat = cx.chat.is_none();
        if !no_chat && self.scope != DiffScope::WorkingTree {
            if let Some(error) = &self.scoped_error {
                let (message, warn) = scoped_notice(error.as_str());
                return PaneContent::Notice { message, warn };
            }
        }
        let phase = if no_chat {
            DiffPhase::Clean
        } else {
            diff_phase(self.active_diff(cx))
        };
        match phase {
            DiffPhase::Preparing => PaneContent::Preparing,
            DiffPhase::Clean => PaneContent::Clean(
                clean_message(self.scope, as_opt_str(&self.base_ref)),
            ),
            DiffPhase::List => if parsed {
                PaneContent::List
            } else {
                PaneContent::Parsing
            },
        }
    }
}

// ---------------------------------------------------------------------------
// Header
// ---------------------------------------------------------------------------

/// `+N`.
pub open spec fn added_text(n: u32) -> Seq<char> {
    seq!['+'] + decimal(n as nat)
}

/// `−N`, with a minus sign.
pub open spec fn removed_text(n: u32) -> Seq<char> {
    seq!['−'] + decimal(n as nat)
}

pub fn added_label(n: u32) -> (r: String)
    ensures
        r@ == added_text(n),
{
    let mut r = String::new();
    r.push('+');
    push_decimal(&mut r, n as u64);
    assert(r@ =~= added_text(n));
    r
}

pub fn removed_label(n: u32) -> (r: String)
    ensures
        r@ == removed_text(n),
{
    let mut r = String::new();
    r.push('−');
    push_decimal(&mut r, n as u64);
    assert(r@ =~= removed_text(n));
    r
}

/// The strip above the rows.
pub struct HeaderStrip {
    pub label: String,
    pub added: String,
    pub removed: String,
    /// A "Partial snapshot" tag shows.
    pub partial: bool,
}

impl Changes {
    pub fn header_strip(&self, parsed: &ParsedDiff) -> (r: HeaderStrip)
        ensures
            r.label@ == scope_text(self.scope, parsed.file_count as nat, opt_text(self.base_ref)),
            r.added@ == added_text(parsed.additions),
            r.removed@ == removed_text(parsed.deletions),
            r.partial == parsed.truncated,
    {
        HeaderStrip {
            label: scope_label(self.scope, parsed.file_count, as_opt_str(&self.base_ref)),
            added: added_label(parsed.additions),
            removed: removed_label(parsed.deletions),
            partial: parsed.truncated,
        }
    }

    /// The ref selector of the branch scope: the checked-out branch and the base.
    pub fn ref_selector(&self, cx: &PaneContext) -> (r: Option<RefSelector>)
        ensures
            r is Some <==> self.scope == DiffScope::Branch,
            r is Some ==> {
                &&& r->0.branch@ == match cx.chat {
                    Some(chat) => match opt_text(chat.branch) {
                        Some(branch) => branch,
                        None => "HEAD"@,
                    },
                    None => "HEAD"@,
                }
                &&& r->0.base@ == match opt_text(self.base_ref) {
                    Some(base) => base,
                    None => "…"@,
                }
            },
    {
        if self.scope != DiffScope::Branch {
            return None;
        }
        let branch = match &cx.chat {
            Some(chat) => match &chat.branch {
                Some(branch) => branch.clone(),
                None => "HEAD".to_owned(),
            },
            None => "HEAD".to_owned(),
        };
        let base = match &self.base_ref {
            Some(base) => base.clone(),
            None => "…".to_owned(),
        };
        Some(RefSelector { branch, base })
    }

    /// The pane-header controls.
    pub fn header_controls(&self, cx: &PaneContext) -> (r: HeaderControls)
        ensures
            match self.commit {
                Some(commit) => r matches HeaderControls::Commit { short, subject } && short@
                    == first_chars(commit.sha@, 7) && subject@ == commit.subject@,
                None => r matches HeaderControls::Scope { label, history, refs } && {
                    &&& label@ == self.scope.label_text()
                    &&& history == (self.scope == DiffScope::History)
                    &&& refs is Some <==> self.scope == DiffScope::Branch
                    &&& refs is Some ==> {
                        &&& refs->0.branch@ == match cx.chat {
                            Some(chat) => match opt_text(chat.branch) {
                                Some(branch) => branch,
                                None => "HEAD"@,
                            },
                            None => "HEAD"@,
                        }
                        &&& refs->0.base@ == match opt_text(self.base_ref) {
                            Some(base) => base,
                            None => "…"@,
                        }
                    }
                },
            },
    {
        match &self.commit {
            Some(commit) => HeaderControls::Commit {
                short: leading(commit.sha.as_str(), 7),
                subject: commit.subject.clone(),
            },
            None => HeaderControls::Scope {
                label: self.scope.label().to_owned(),
                history: self.scope == DiffScope::History,
                refs: self.ref_selector(cx),
            },
        }
    }

    /// The rows of the scope menu: the pickable scopes in order, and which one is picked.
    pub fn scope_menu(&self) -> (r: Vec<(DiffScope, bool)>)
        ensures
            r@ == seq![
                (DiffScope::WorkingTree, self.scope == DiffScope::WorkingTree),
                (DiffScope::Branch, self.scope == DiffScope::Branch),
                (DiffScope::LatestTurn, self.scope == DiffScope::LatestTurn),
                (DiffScope::History, self.scope == DiffScope::History),
            ],
    {
        let mut r: Vec<(DiffScope, bool)> = Vec::new();
        r.push((DiffScope::WorkingTree, self.scope == DiffScope::WorkingTree));
        r.push((DiffScope::Branch, self.scope == DiffScope::Branch));
        r.push((DiffScope::LatestTurn, self.scope == DiffScope::LatestTurn));
        r.push((DiffScope::History, self.scope == DiffScope::History));
        assert(r@ =~= seq![
            (DiffScope::WorkingTree, self.scope == DiffScope::WorkingTree),
            (DiffScope::Branch, self.scope == DiffScope::Branch),
            (DiffScope::LatestTurn, self.scope == DiffScope::LatestTurn),
            (DiffScope::History, self.scope == DiffScope::History),
        ]);
        r
    }

    /// The highlight of a freshly opened base menu: the current base, else the first branch.
    pub fn ref_menu_start(&self) -> (r: usize)
        ensures
            r == match opt_text(self.base_ref) {
                Some(base) => match position(texts(self.branches@), base) {
                    Some(i) => i,
                    None => 0,
                },
                None => 0,
            },
    {
        match &self.base_ref {
            Some(base) => match position_of(&self.branches, base.as_str()) {
                Some(i) => i,
                None => 0,
            },
            None => 0,
        }
    }

    /// The base menu's rows for the branch indices that a search left.
    pub fn ref_menu(&self, rows: &Vec<usize>, active: usize) -> (r: RefMenu)
        requires
            forall|i: int| 0 <= i < rows@.len() ==> #[trigger] rows@[i] < self.branches@.len(),
        ensures
            rows@.len() == 0 ==> (r matches RefMenu::Empty(m) && m@ == if self.branches@.len()
                == 0 {
                "No branches"@
            } else {
                "No matching branches"@
            }),
            rows@.len() > 0 ==> (r matches RefMenu::Rows(v) && v@.len() == rows@.len() && (forall|
                i: int,
            |
                0 <= i < v@.len() ==> {
                    let name = texts(self.branches@)[rows@[i] as int];
                    &&& (#[trigger] v@[i]).name@ == name
                    &&& v@[i].selected == (opt_text(self.base_ref) == Some(name))
                    &&& v@[i].active == (i == active)
                })),
    {
        if rows.len() == 0 {
            return RefMenu::Empty(
                if self.branches.len() == 0 {
                    "No branches".to_owned()
                } else {
                    "No matching branches".to_owned()
                },
            );
        }
        let mut v: Vec<RefMenuRow> = Vec::new();
        for i in 0..rows.len()
            invariant
                forall|i: int| 0 <= i < rows@.len() ==> #[trigger] rows@[i] < self.branches@.len(),
                v@.len() == i,
                forall|k: int|
                    0 <= k < v@.len() ==> {
                        let name = texts(self.branches@)[rows@[k] as int];
                        &&& (#[trigger] v@[k]).name@ == name
                        &&& v@[k].selected == (opt_text(self.base_ref) == Some(name))
                        &&& v@[k].active == (k == active)
                    },
        {
            let name = self.branches[rows[i]].clone();
            let selected = is_text(&self.base_ref, name.as_str());
            v.push(RefMenuRow { name, selected, active: i == active });
        }
        RefMenu::Rows(v)
    }

    /// The branch that the highlighted row of the base menu stands for.
    pub fn ref_menu_pick(&self, rows: &Vec<usize>, active: usize) -> (r: Option<String>)
        ensures
            opt_text(r) == if active < rows@.len() && rows@[active as int] < self.branches@.len() {
                Some(texts(self.branches@)[rows@[active as int] as int])
            } else {
                None
            },
    {
        if active < rows.len() && rows[active] < self.branches.len() {
            Some(self.branches[rows[active]].clone())
        } else {
            None
        }
    }

    /// Whether everything but the base is as it was.
    pub open spec fn same_but_base(self, other: Self) -> bool {
        &&& self.scope == other.scope
        &&& self.diffs == other.diffs
        &&& self.started == other.started
        &&& self.error == other.error
        &&& self.watch_target == other.watch_target
        &&& self.branches == other.branches
        &&& self.branches_for == other.branches_for
        &&& self.scoped == other.scoped
        &&& self.scoped_for == other.scoped_for
        &&& self.scoped_error == other.scoped_error
        &&& self.scoped_inflight == other.scoped_inflight
        &&& self.commit == other.commit
    }

    /// A key in the base menu, with the rows that a search left and the highlighted one. `stepped`
    /// is the highlight one row up or down, where there is a row. A menu that is closing still has
    /// the focus, but keys no longer drive it.
    pub fn ref_menu_key(
        &mut self,
        open: bool,
        key: MenuKey,
        rows: &Vec<usize>,
        active: usize,
        stepped: Option<usize>,
    ) -> (r: RefMenuStep)
        ensures
            final(self).same_but_base(*old(self)),
            ({
                let picked = active < rows@.len() && rows@[active as int]
                    < old(self).branches@.len();
                if open && key.confirms() && picked {
                    let name = texts(old(self).branches@)[rows@[active as int] as int];
                    &&& r == (RefMenuStep::Picked {
                        changed: opt_text(old(self).base_ref) != Some(name),
                    })
                    &&& opt_text(final(self).base_ref) == Some(name)
                } else {
                    &&& *final(self) == *old(self)
                    &&& r == if !open {
                        RefMenuStep::Ignore
                    } else {
                        match key {
                            MenuKey::Escape => RefMenuStep::Close,
                            MenuKey::Up | MenuKey::Down => RefMenuStep::Highlight(
                                match stepped {
                                    Some(row) => row,
                                    None => 0,
                                },
                            ),
                            _ => RefMenuStep::Ignore,
                        }
                    }
                }
            }),
    {
        if !open {
            return RefMenuStep::Ignore;
        }
        match key {
            MenuKey::Escape => RefMenuStep::Close,
            MenuKey::Up | MenuKey::Down => RefMenuStep::Highlight(
                match stepped {
                    Some(row) => row,
                    None => 0,
                },
            ),
            MenuKey::Enter | MenuKey::ModEnter => match self.ref_menu_pick(rows, active) {
                Some(branch) => {
                    let changed = self.set_base_ref(branch);
                    RefMenuStep::Picked { changed }
                },
                None => RefMenuStep::Ignore,
            },
            MenuKey::Other => RefMenuStep::Ignore,
        }
    }
}

/// A key as a menu takes it.
#[derive(Debug, Clone, Copy, PartialEq, Eq, Structural)]
pub enum MenuKey {
    Escape,
    Up,
    Down,
    Enter,
    ModEnter,
    Other,
}

impl MenuKey {
    pub open spec fn confirms(self) -> bool {
        self == MenuKey::Enter || self == MenuKey::ModEnter
    }
}

/// What a key in the base menu comes to.
#[derive(Debug, Clone, Copy, PartialEq, Eq, Structural)]
pub enum RefMenuStep {
    Ignore,
    Close,
    /// The highlight moves, and the list scrolls to it.
    Highlight(usize),
    /// A base was picked: the menu closes, and another base than before is loaded.
    Picked { changed: bool },
}

/// The refs that the branch scope compares.
#[derive(Debug, PartialEq, Eq)]
pub struct RefSelector {
    pub branch: String,
    pub base: String,
}

/// The controls in the pane's header.
#[derive(Debug, PartialEq, Eq)]
pub enum HeaderControls {
    /// A commit-pinned pane: a fixed identity chip, then fold-all.
    Commit { short: String, subject: String },
    /// The scope dropdown; the base selector in branch scope; then fold-all, or fetch and refresh
    /// in history scope.
    Scope { label: String, history: bool, refs: Option<RefSelector> },
}

#[derive(Debug, PartialEq, Eq)]
pub enum RefMenu {
    Empty(String),
    Rows(Vec<RefMenuRow>),
}

#[derive(Debug, PartialEq, Eq)]
pub struct RefMenuRow {
    pub name: String,
    pub selected: bool,
    pub active: bool,
}

// ---------------------------------------------------------------------------
// Rows
// ---------------------------------------------------------------------------

/// What a file's header row shows.
#[derive(Debug, PartialEq, Eq)]
pub struct FileHeader {
    pub path: String,
    pub collapsed: bool,
    /// The chevron is still crossfading.
    pub animating: bool,
    /// A "BIN" tag shows.
    pub binary: bool,
    pub added: Option<String>,
    pub removed: Option<String>,
    /// A hairline parts it from the file above.
    pub separated: bool,
}

/// What a row of the list shows.
pub enum RowView<'a> {
    Nothing,
    FileHeader(FileHeader),
    Notice(String),
    HunkHeader(&'a str),
    /// A diff line, and where a comment on it would be pinned.
    Line { line: &'a DiffLine, anchor: Option<(CommentSide, u32)>, hovered: bool },
    CommentCard(&'a DiffComment),
    CommentDraft(&'a CommentDraft),
    BodyPad,
    FoldingBody { file: usize, animating: bool },
}

/// The index of the `n`th comment on `path`.
pub open spec fn nth_on(comments: Seq<DiffComment>, path: Seq<char>, n: int, from: int) -> Option<
    int,
>
    decreases comments.len() - from,
{
    if from >= comments.len() {
        None
    } else if comments[from].path@ != path {
        nth_on(comments, path, n, from + 1)
    } else if n == 0 {
        Some(from)
    } else {
        nth_on(comments, path, n - 1, from + 1)
    }
}

fn find_nth_on(comments: &[DiffComment], path: &str, n: usize) -> (r: Option<usize>)
    ensures
        match (r, nth_on(comments@, path@, n as int, 0)) {
            (Some(i), Some(j)) => i == j && i < comments@.len(),
            (None, None) => true,
            _ => false,
        },
{
    let mut left: usize = n;
    let mut i: usize = 0;
    while i < comments.len()
        invariant
            i <= comments@.len(),
            nth_on(comments@, path@, n as int, 0) == nth_on(
                comments@,
                path@,
                left as int,
                i as int,
            ),
        decreases comments@.len() - i,
    {
        if same_str(comments[i].path.as_str(), path) {
            if left == 0 {
                return Some(i);
            }
            left -= 1;
        }
        i += 1;
    }
    None
}

/// The marker column of a diff line.
pub open spec fn marker_of(kind: LineKind) -> char {
    match kind {
        LineKind::Add => '+',
        LineKind::Del => '−',
        _ => '·',
    }
}

pub fn line_marker(kind: LineKind) -> (r: char)
    ensures
        r == marker_of(kind),
{
    match kind {
        LineKind::Add => '+',
        LineKind::Del => '−',
        _ => '·',
    }
}

/// A gutter shows a line's number, or nothing.
pub open spec fn gutter_of(no: Option<u32>) -> Seq<char> {
    match no {
        Some(n) => decimal(n as nat),
        None => Seq::empty(),
    }
}

pub fn gutter_text(no: Option<u32>) -> (r: String)
    ensures
        r@ == gutter_of(no),
{
    let mut r = String::new();
    if let Some(n) = no {
        push_decimal(&mut r, n as u64);
    }
    assert(r@ =~= gutter_of(no));
    r
}

pub open spec fn is_header_of(h: FileHeader, ix: int, file: FileDiff, fold: FileFold, now: u64) -> bool {
    &&& h.path@ == file.path@
    &&& h.collapsed == fold.collapsed
    &&& h.animating == fold.is_animating(now)
    &&& h.binary == file.binary
    &&& opt_text(h.added) == if file.additions > 0 || !file.binary {
        Some(added_text(file.additions))
    } else {
        None
    }
    &&& opt_text(h.removed) == if file.deletions > 0 || !file.binary {
        Some(removed_text(file.deletions))
    } else {
        None
    }
    &&& h.separated == (ix > 0)
}

impl DiffPane {
    fn header_view(&self, ix: usize, now: u64) -> (r: FileHeader)
        requires
            ix < self.files@.len(),
        ensures
            is_header_of(r, ix as int, self.files@[ix as int], self.fold_of(ix as int), now),
    {
        let file = &self.files[ix];
        let fold = self.fold(file.path.as_str());
        FileHeader {
            path: file.path.clone(),
            collapsed: fold.collapsed,
            animating: fold.animating(now),
            binary: file.binary,
            added: if file.additions > 0 || !file.binary {
                Some(added_label(file.additions))
            } else {
                None
            },
            removed: if file.deletions > 0 || !file.binary {
                Some(removed_label(file.deletions))
            } else {
                None
            },
            separated: ix > 0,
        }
    }

    /// What row `ix` shows. A row that points at nothing any more shows nothing.
    pub fn row_view<'a>(
        &'a self,
        ix: usize,
        comments: &'a [DiffComment],
        pins: &'a Pins,
        now: u64,
    ) -> (r: RowView<'a>)
        ensures
            ix >= self.rows@.len() ==> r is Nothing,
            ix < self.rows@.len() ==> self.shows(
                self.rows@[ix as int],
                comments@,
                *pins,
                now,
                r,
            ),
    {
        if ix >= self.rows.len() {
            return RowView::Nothing;
        }
        let row = self.rows[ix];
        match row {
            DiffRow::FileHeader { file } => {
                let f = file as usize;
                if f >= self.files.len() {
                    return RowView::Nothing;
                }
                RowView::FileHeader(self.header_view(f, now))
            },
            DiffRow::Notice { file, notice } => {
                let f = file as usize;
                if f >= self.files.len() {
                    return RowView::Nothing;
                }
                let notices = file_notices(&self.files[f]);
                assert(notices@.len() == texts(notices@).len());
                let n = notice as usize;
                if n >= notices.len() {
                    return RowView::Nothing;
                }
                assert(texts(notices@)[n as int] == notices@[n as int]@);
                RowView::Notice(notices[n].clone())
            },
            DiffRow::HunkHeader { file, hunk } => {
                let f = file as usize;
                let h = hunk as usize;
                if f >= self.files.len() || h >= self.files[f].hunks.len() {
                    return RowView::Nothing;
                }
                RowView::HunkHeader(self.files[f].hunks[h].header.as_str())
            },
            DiffRow::Line { file, hunk, line, flat: _ } => {
                let f = file as usize;
                let h = hunk as usize;
                let l = line as usize;
                if f >= self.files.len() || h >= self.files[f].hunks.len() || l
                    >= self.files[f].hunks[h].lines.len() {
                    return RowView::Nothing;
                }
                let line = &self.files[f].hunks[h].lines[l];
                let anchor = line_anchor(line);
                let hovered = match anchor {
                    Some((side, no)) => pins.hovered(self.files[f].path.as_str(), side, no),
                    None => false,
                };
                RowView::Line { line, anchor, hovered }
            },
            DiffRow::CommentCard { file, card } => {
                let f = file as usize;
                if f >= self.files.len() {
                    return RowView::Nothing;
                }
                match find_nth_on(comments, self.files[f].path.as_str(), card as usize) {
                    Some(i) => RowView::CommentCard(&comments[i]),
                    None => RowView::Nothing,
                }
            },
            DiffRow::CommentDraft { file } => {
                let f = file as usize;
                if f >= self.files.len() {
                    return RowView::Nothing;
                }
                match &pins.draft {
                    Some(draft) => if same_str(draft.path.as_str(), self.files[f].path.as_str()) {
                        RowView::CommentDraft(draft)
                    } else {
                        RowView::Nothing
                    },
                    None => RowView::Nothing,
                }
            },
            DiffRow::BodyPad { file: _ } => RowView::BodyPad,
            DiffRow::FoldingBody { file } => {
                let f = file as usize;
                if f >= self.files.len() {
                    return RowView::Nothing;
                }
                let fold = self.fold(self.files[f].path.as_str());
                RowView::FoldingBody { file: f, animating: fold.animating(now) }
            },
        }
    }

    /// Whether `r` is what `row` shows.
    pub open spec fn shows(
        self,
        row: DiffRow,
        comments: Seq<DiffComment>,
        pins: Pins,
        now: u64,
        r: RowView,
    ) -> bool {
        let files = self.files@;
        match row {
            DiffRow::FileHeader { file } => if file < files.len() {
                r matches RowView::FileHeader(h) && is_header_of(
                    h,
                    file as int,
                    files[file as int],
                    self.fold_of(file as int),
                    now,
                )
            } else {
                r is Nothing
            },
            DiffRow::Notice { file, notice } => if file < files.len() && notice < notices_of(
                files[file as int]@,
            ).len() {
                r matches RowView::Notice(text) && text@ == notices_of(
                    files[file as int]@,
                )[notice as int]
            } else {
                r is Nothing
            },
            DiffRow::HunkHeader { file, hunk } => if file < files.len() && hunk
                < files[file as int].hunks@.len() {
                r matches RowView::HunkHeader(text) && text@
                    == files[file as int].hunks@[hunk as int].header@
            } else {
                r is Nothing
            },
            DiffRow::Line { file, hunk, line, .. } => if file < files.len() && hunk
                < files[file as int].hunks@.len() && line
                < files[file as int].hunks@[hunk as int].lines@.len() {
                let own = files[file as int].hunks@[hunk as int].lines@[line as int];
                r matches RowView::Line { line: l, anchor, hovered } && {
                    &&& *l == own
                    &&& anchor == anchor_of(own@)
                    &&& hovered == (anchor matches Some((side, no)) && hover_model(pins.hover)
                        == Some((files[file as int].path@, side, no)))
                }
            } else {
                r is Nothing
            },
            DiffRow::CommentCard { file, card } => if file < files.len() {
                match nth_on(comments, files[file as int].path@, card as int, 0) {
                    Some(i) => r matches RowView::CommentCard(c) && *c == comments[i],
                    None => r is Nothing,
                }
            } else {
                r is Nothing
            },
            DiffRow::CommentDraft { file } => if file < files.len() && pins.draft is Some
                && pins.draft->0.path@ == files[file as int].path@ {
                r matches RowView::CommentDraft(d) && *d == pins.draft->0
            } else {
                r is Nothing
            },
            DiffRow::BodyPad { .. } => r is BodyPad,
            DiffRow::FoldingBody { file } => if file < files.len() {
                r matches RowView::FoldingBody { file: f, animating } && f == file && animating
                    == self.fold_of(file as int).is_animating(now)
            } else {
                r is Nothing
            },
        }
    }
}

proof fn lemma_nth_on(comments: Seq<DiffComment>, path: Seq<char>, n: int, from: int)
    requires
        0 <= from <= comments.len(),
        0 <= n,
    ensures
        match nth_on(comments, path, n, from) {
            Some(i) => from <= i < comments.len() && comments[i].path@ == path && anchors_in(
                comments.take(i),
                path,
            ).len() == anchors_in(comments.take(from), path).len() + n,
            None => anchors_in(comments, path).len() <= anchors_in(comments.take(from), path).len()
                + n,
        },
    decreases comments.len() - from,
{
    if from < comments.len() {
        law_a_file_has_its_own_comments(comments, path, from);
        if comments[from].path@ != path {
            lemma_nth_on(comments, path, n, from + 1);
        } else if n > 0 {
            lemma_nth_on(comments, path, n - 1, from + 1);
        }
    } else {
        assert(comments.take(from) =~= comments);
    }
}

/// A card shows the comment that it stands for: the one on the file's path that is pinned where the
/// card hangs.
pub proof fn law_cards_show_their_own_comment(
    comments: Seq<DiffComment>,
    path: Seq<char>,
    card: int,
)
    requires
        0 <= card < anchors_in(comments, path).len(),
    ensures
        nth_on(comments, path, card, 0) matches Some(i) && 0 <= i < comments.len()
            && comments[i].path@ == path && (comments[i].side, comments[i].line) == anchors_in(
            comments,
            path,
        )[card],
{
    lemma_nth_on(comments, path, card, 0);
    assert(comments.take(0) =~= Seq::<DiffComment>::empty());
    if let Some(i) = nth_on(comments, path, card, 0) {
        law_a_file_has_its_own_comments(comments, path, i);
    }
}

/// Added and deleted lines are marked as such and unlike any other.
pub proof fn law_changes_are_marked(kind: LineKind)
    ensures
        marker_of(kind) == '+' <==> kind == LineKind::Add,
        marker_of(kind) == '−' <==> kind == LineKind::Del,
{
}

/// A failed capture is shown as it is, with a warning, but for the two that are expected: there was
/// no turn yet, or the chat's device runs an older version.
pub proof fn law_expected_failures_are_no_warnings(message: Seq<char>)
    ensures
        notice_for(message).1 <==> !contains(message, "no turn recorded"@) && !contains(
            message,
            "unknown method"@,
        ),
        notice_for(message).1 ==> notice_for(message).0 == message,
{
}

/// A row shows what it names: a line row that line of that hunk, a header row that hunk's header, a
/// notice row that notice of the file, and a card the comment that it stands for.
pub proof fn law_rows_show_what_they_name(
    pane: DiffPane,
    row: DiffRow,
    comments: Seq<DiffComment>,
    pins: Pins,
    now: u64,
    r: RowView,
)
    requires
        pane.shows(row, comments, pins, now, r),
    ensures
        match row {
            DiffRow::Line { file, hunk, line, .. } => file < pane.files@.len() && hunk
                < pane.files@[file as int].hunks@.len() && line
                < pane.files@[file as int].hunks@[hunk as int].lines@.len() ==> (match r {
                RowView::Line { line: shown, .. } => *shown
                    == pane.files@[file as int].hunks@[hunk as int].lines@[line as int],
                _ => false,
            }),
            DiffRow::HunkHeader { file, hunk } => file < pane.files@.len() && hunk
                < pane.files@[file as int].hunks@.len() ==> (match r {
                RowView::HunkHeader(text) => text@
                    == pane.files@[file as int].hunks@[hunk as int].header@,
                _ => false,
            }),
            DiffRow::CommentCard { file, card } => file < pane.files@.len() && card < anchors_in(
                comments,
                pane.files@[file as int].path@,
            ).len() ==> (match r {
                RowView::CommentCard(comment) => comment.path@ == pane.files@[file as int].path@ && (
                comment.side, comment.line) == anchors_in(
                    comments,
                    pane.files@[file as int].path@,
                )[card as int],
                _ => false,
            }),
            _ => true,
        },
{
    if let DiffRow::CommentCard { file, card } = row {
        if file < pane.files@.len() && card < anchors_in(
            comments,
            pane.files@[file as int].path@,
        ).len() {
            law_cards_show_their_own_comment(
                comments,
                pane.files@[file as int].path@,
                card as int,
            );
        }
    }
}

} // verus!
