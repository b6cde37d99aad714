//! Git history pane: paged commit rows and their lane graph.
//!
//! The pane performs no requests itself: its methods say which page or fetch is due, and take the
//! outcome.

use chrono::Datelike;
use vstd::prelude::*;

use crate::graph::{after_commits, commit_models, layout_graph, row_models, GraphLayout};
use crate::pane::{first_chars, leading, Changes, PaneContext};
use crate::proto::{GitHistoryCommit, GitHistoryRef, GitHistoryRefKind};
use crate::requests::{following, numbered, take_number};
use crate::search::{as_opt_str, copy_opt, is_text};
use crate::text::{
    all_digits, decimal, digits_value, is_digit, law_decimals_are_read_back, lemma_decimal,
    lemma_texts_push, opt_text, parse_decimal, push_decimal, same_str, texts, without_plus,
};

verus! {

pub const HISTORY_PAGE_SIZE: usize = 100;

/// How long a copied sha's row says so.
pub const COPIED_MS: u64 = 1200;

/// How many colors the graph's paths go through.
pub const GRAPH_COLORS: usize = 6;

// ---------------------------------------------------------------------------
// Dates and refs
// ---------------------------------------------------------------------------

/// The year, month and day that an RFC 3339 text states, or none where it is not one.
pub uninterp spec fn rfc3339_date(value: Seq<char>) -> Option<(int, int, int)>;

/// `chrono::DateTime::parse_from_rfc3339`, with the date that its result states: a four-digit year,
/// a month and a day of the month. Which texts are accepted is left to the parser.
#[verifier::external_body]
fn parse_rfc3339(value: &str) -> (r: Option<(i32, u32, u32)>)
    ensures
        match (r, rfc3339_date(value@)) {
            (Some((y, m, d)), Some(date)) => date == (y as int, m as int, d as int) && 0 <= y
                <= 9999 && 1 <= m <= 12 && 1 <= d <= 31,
            (None, None) => true,
            _ => false,
        },
{
    match chrono::DateTime::parse_from_rfc3339(value) {
        Ok(date) => Some((date.year(), date.month(), date.day())),
        Err(_) => None,
    }
}

/// The short name of a month.
pub open spec fn month_name(m: int) -> Seq<char> {
    if m == 1 {
        "Jan"@
    } else if m == 2 {
        "Feb"@
    } else if m == 3 {
        "Mar"@
    } else if m == 4 {
        "Apr"@
    } else if m == 5 {
        "May"@
    } else if m == 6 {
        "Jun"@
    } else if m == 7 {
        "Jul"@
    } else if m == 8 {
        "Aug"@
    } else if m == 9 {
        "Sep"@
    } else if m == 10 {
        "Oct"@
    } else if m == 11 {
        "Nov"@
    } else {
        "Dec"@
    }
}

/// A year in four digits.
pub open spec fn year_text(y: int) -> Seq<char> {
    let zeros = if y < 10 {
        seq!['0', '0', '0']
    } else if y < 100 {
        seq!['0', '0']
    } else if y < 1000 {
        seq!['0']
    } else {
        Seq::empty()
    };
    zeros + decimal(y as nat)
}

/// `Aug 3, 2026`, or a dash where there is no date.
pub open spec fn date_text(date: Option<(int, int, int)>) -> Seq<char> {
    match date {
        Some((y, m, d)) => month_name(m) + seq![' '] + decimal(d as nat) + seq![',', ' ']
            + year_text(y),
        None => "—"@,
    }
}

/// The date column of a commit, given the date its timestamp states.
pub fn date_label(date: Option<(i32, u32, u32)>) -> (r: String)
    requires
        date matches Some((y, m, d)) ==> 0 <= y <= 9999 && 1 <= m <= 12,
    ensures
        r@ == date_text(
            match date {
                Some((y, m, d)) => Some((y as int, m as int, d as int)),
                None => None,
            },
        ),
{
    let (y, m, d) = match date {
        Some(date) => date,
        None => {
            return "—".to_owned();
        },
    };
    let mut r = if m == 1 {
        "Jan".to_owned()
    } else if m == 2 {
        "Feb".to_owned()
    } else if m == 3 {
        "Mar".to_owned()
    } else if m == 4 {
        "Apr".to_owned()
    } else if m == 5 {
        "May".to_owned()
    } else if m == 6 {
        "Jun".to_owned()
    } else if m == 7 {
        "Jul".to_owned()
    } else if m == 8 {
        "Aug".to_owned()
    } else if m == 9 {
        "Sep".to_owned()
    } else if m == 10 {
        "Oct".to_owned()
    } else if m == 11 {
        "Nov".to_owned()
    } else {
        "Dec".to_owned()
    };
    r.push(' ');
    push_decimal(&mut r, d as u64);
    r.push(',');
    r.push(' ');
    if y < 1000 {
        r.push('0');
    }
    if y < 100 {
        r.push('0');
    }
    if y < 10 {
        r.push('0');
    }
    push_decimal(&mut r, y as u64);
    assert(r@ =~= date_text(Some((y as int, m as int, d as int))));
    r
}

/// The date of an RFC 3339 timestamp, or a dash where it is not one.
pub fn format_date(value: &str) -> (r: String)
    ensures
        r@ == date_text(rfc3339_date(value@)),
{
    let date = parse_rfc3339(value);
    date_label(date)
}

/// What a ref's tooltip says.
pub open spec fn ref_text(reference: GitHistoryRef) -> Seq<char> {
    match reference.kind {
        GitHistoryRefKind::Branch => "Branch: "@ + reference.label@,
        GitHistoryRefKind::Remote => "Remote branch: "@ + reference.label@,
        GitHistoryRefKind::Tag => "Tag: "@ + reference.label@,
    }
}

pub fn ref_description(reference: &GitHistoryRef) -> (r: String)
    ensures
        r@ == ref_text(*reference),
{
    let mut r = match reference.kind {
        GitHistoryRefKind::Branch => "Branch: ".to_owned(),
        GitHistoryRefKind::Remote => "Remote branch: ".to_owned(),
        GitHistoryRefKind::Tag => "Tag: ".to_owned(),
    };
    r.push_str(reference.label.as_str());
    r
}

/// What follows the refs that fit into a row.
pub struct HiddenRefs {
    pub label: String,
    pub descriptions: Vec<String>,
}

/// The refs behind the first `visible`, as the overflow label and its tooltip's lines.
pub fn hidden_refs(refs: &Vec<GitHistoryRef>, visible: usize) -> (r: Option<HiddenRefs>)
    ensures
        r is Some <==> visible < refs@.len(),
        r is Some ==> {
            &&& r->0.label@ == seq!['+'] + decimal((refs@.len() - visible) as nat)
            &&& texts(r->0.descriptions@) == refs@.skip(visible as int).map_values(
                |reference: GitHistoryRef| ref_text(reference),
            )
        },
{
    if visible >= refs.len() {
        return None;
    }
    let mut label = String::new();
    label.push('+');
    push_decimal(&mut label, (refs.len() - visible) as u64);
    assert(label@ =~= seq!['+'] + decimal((refs@.len() - visible) as nat));
    let mut descriptions: Vec<String> = Vec::new();
    let ghost hidden = refs@.skip(visible as int);
    let ghost all = hidden.map_values(|reference: GitHistoryRef| ref_text(reference));
    for i in visible..refs.len()
        invariant
            hidden == refs@.skip(visible as int),
            all == hidden.map_values(|reference: GitHistoryRef| ref_text(reference)),
            texts(descriptions@) =~= all.take(i - visible),
    {
        let ghost before = descriptions@;
        descriptions.push(ref_description(&refs[i]));
        proof {
            lemma_texts_push(before, descriptions@.last());
            assert(hidden[i - visible] == refs@[i as int]);
            assert(all.take(i + 1 - visible) =~= all.take(i - visible).push(all[i - visible]));
        }
    }
    assert(all.take(all.len() as int) =~= all);
    Some(HiddenRefs { label, descriptions })
}

/// The color of a path, by its place in the palette.
pub fn path_color(color_id: usize) -> (r: usize)
    ensures
        r == color_id as int % GRAPH_COLORS as int,
{
    color_id % GRAPH_COLORS
}

// ---------------------------------------------------------------------------
// Pages
// ---------------------------------------------------------------------------

/// A page of the history.
pub struct GitHistoryPage {
    pub commits: Vec<GitHistoryCommit>,
    pub head_sha: Option<String>,
    pub next_cursor: Option<usize>,
    pub total_count: Option<usize>,
    pub head_commit_count: Option<usize>,
}

/// Where a page is read.
pub struct HistoryPlace {
    pub key: String,
    pub cwd: String,
    pub target: Option<String>,
}

/// A fetch of all remotes.
pub struct FetchRequest {
    /// Tells the request from every other one of the pane.
    pub number: u64,
    pub place: HistoryPlace,
}

/// A page to fetch; `reset` where it replaces what is there.
pub struct PageRequest {
    /// Tells the request from every other one of the pane.
    pub number: u64,
    pub key: String,
    pub cwd: String,
    pub target: Option<String>,
    pub cursor: usize,
    pub limit: usize,
    pub reset: bool,
}

/// What a list of rows must do.
#[derive(Debug, Clone, Copy, PartialEq, Eq, Structural)]
pub enum ListChange {
    /// Show this many rows from the top.
    Reset(usize),
    /// Rows `start..end` give way to `count` others.
    Splice { start: usize, end: usize, count: usize },
}

/// The state of the history pane.
pub struct GitHistory {
    pub started: bool,
    pub target_key: Option<String>,
    pub commits: Vec<GitHistoryCommit>,
    pub head_sha: Option<String>,
    pub next_cursor: Option<usize>,
    pub total_count: Option<usize>,
    pub head_commit_count: Option<usize>,
    pub loading: bool,
    pub error: Option<String>,
    pub graph: GraphLayout,
    pub copied_sha: Option<String>,
    pub fetching_all: bool,
    pub fetch_for: Option<String>,
    pub fetch_error: Option<String>,
    /// The number of the next request.
    pub next_number: u64,
    /// The page request whose answer is still wanted.
    pub awaited: Option<u64>,
    /// The fetch of all remotes whose outcome is still wanted.
    pub fetch_awaited: Option<u64>,
    /// The timer that ends the note of a copied sha.
    pub copy_awaited: Option<u64>,
}

/// How long a copied sha's row says so.
#[derive(Debug, Clone, Copy, PartialEq, Eq, Structural)]
pub struct CopyTimer {
    pub number: u64,
    /// Milliseconds.
    pub shown: u64,
}

/// What the pane tells its host.
pub enum GitHistoryEvent {
    FetchSucceeded,
    /// A commit row was clicked — the host opens it as its own diff tab.
    OpenCommit(GitHistoryCommit),
}

/// Whether some commit has this sha.
pub open spec fn has_sha(commits: Seq<GitHistoryCommit>, sha: Seq<char>) -> bool {
    exists|i: int| 0 <= i < commits.len() && (#[trigger] commits[i]).sha@ == sha
}

/// The commits with those of the first `n` of a page that were not there yet.
pub open spec fn merged(
    commits: Seq<GitHistoryCommit>,
    page: Seq<GitHistoryCommit>,
    n: nat,
) -> Seq<GitHistoryCommit>
    decreases n,
{
    if n == 0 {
        commits
    } else {
        let before = merged(commits, page, (n - 1) as nat);
        if has_sha(before, page[n - 1].sha@) {
            before
        } else {
            before.push(page[n - 1])
        }
    }
}

fn knows_sha(commits: &Vec<GitHistoryCommit>, sha: &str) -> (r: bool)
    ensures
        r == has_sha(commits@, sha@),
{
    for i in 0..commits.len()
        invariant
            forall|k: int| 0 <= k < i ==> (#[trigger] commits@[k]).sha@ != sha@,
    {
        if same_str(commits[i].sha.as_str(), sha) {
            assert(commits@[i as int].sha@ == sha@);
            return true;
        }
    }
    false
}

fn merge(commits: &mut Vec<GitHistoryCommit>, page: Vec<GitHistoryCommit>)
    ensures
        final(commits)@ == merged(old(commits)@, page@, page@.len()),
{
    let ghost start = commits@;
    let ghost all = page@;
    for commit in it: page
        invariant
            it.seq() == all,
            commits@ == merged(start, all, it.index() as nat),
    {
        if !knows_sha(commits, commit.sha.as_str()) {
            commits.push(commit);
        }
    }
}

proof fn lemma_merged(commits: Seq<GitHistoryCommit>, page: Seq<GitHistoryCommit>, n: nat)
    requires
        n <= page.len(),
    ensures
        commits.len() <= merged(commits, page, n).len() <= commits.len() + n,
        merged(commits, page, n).take(commits.len() as int) == commits,
        forall|k: int|
            0 <= k < n ==> has_sha(merged(commits, page, n), (#[trigger] page[k]).sha@),
    decreases n,
{
    let after = merged(commits, page, n);
    if n == 0 {
        assert(after.take(commits.len() as int) =~= commits);
    } else {
        lemma_merged(commits, page, (n - 1) as nat);
        let before = merged(commits, page, (n - 1) as nat);
        assert(after.take(commits.len() as int) =~= before.take(commits.len() as int));
        assert forall|k: int| 0 <= k < n implies has_sha(after, (#[trigger] page[k]).sha@) by {
            if k < n - 1 {
                assert(has_sha(before, page[k].sha@));
                let i = choose|i: int|
                    0 <= i < before.len() && (#[trigger] before[i]).sha@ == page[k].sha@;
                assert(after[i].sha@ == page[k].sha@);
            } else if !has_sha(before, page[k].sha@) {
                assert(after[before.len() as int].sha@ == page[k].sha@);
            }
        }
    }
}

/// No two commits share a sha.
pub open spec fn distinct_shas(commits: Seq<GitHistoryCommit>) -> bool {
    forall|i: int, j: int|
        0 <= i < j < commits.len() ==> (#[trigger] commits[i]).sha@ != (#[trigger] commits[j]).sha@
}

/// Older commits are appended behind the loaded ones, which stay as they are; every commit of the
/// page is there afterwards, and none twice.
pub proof fn law_older_pages_append(commits: Seq<GitHistoryCommit>, page: Seq<GitHistoryCommit>)
    ensures
        merged(commits, page, page.len()).take(commits.len() as int) == commits,
        forall|k: int|
            0 <= k < page.len() ==> has_sha(
                merged(commits, page, page.len()),
                (#[trigger] page[k]).sha@,
            ),
        distinct_shas(commits) ==> distinct_shas(merged(commits, page, page.len())),
{
    lemma_merged(commits, page, page.len());
    if distinct_shas(commits) {
        lemma_merged_distinct(commits, page, page.len());
    }
}

proof fn lemma_merged_distinct(
    commits: Seq<GitHistoryCommit>,
    page: Seq<GitHistoryCommit>,
    n: nat,
)
    requires
        distinct_shas(commits),
    ensures
        distinct_shas(merged(commits, page, n)),
    decreases n,
{
    if n > 0 {
        lemma_merged_distinct(commits, page, (n - 1) as nat);
        let before = merged(commits, page, (n - 1) as nat);
        let after = merged(commits, page, n);
        assert forall|i: int, j: int| 0 <= i < j < after.len() implies (#[trigger] after[i]).sha@
            != (#[trigger] after[j]).sha@ by {
            assert(after[i] == before[i]);
            if j < before.len() {
                assert(after[j] == before[j]);
            } else {
                assert(before[i].sha@ != page[n - 1].sha@);
            }
        }
    }
}

/// A load-more row closes the list while there is more to load.
pub open spec fn item_count(commits: nat, next_cursor: Option<usize>) -> nat {
    commits + if next_cursor is Some {
        1nat
    } else {
        0nat
    }
}

/// An answer lands only where it belongs to the last page request: once another request was made,
/// or its own was given up with its place, an earlier one never lands. Numbers run on until they
/// are used up.
pub proof fn law_superseded_pages_never_land(
    before: GitHistory,
    after: GitHistory,
    made: Option<PageRequest>,
    number: u64,
    key: Seq<char>,
)
    requires
        number < before.next_number,
        after.numbered(before, made, None),
    ensures
        !after.wants_page(number, key),
        before.next_number < u64::MAX ==> number < after.next_number,
{
}

impl GitHistory {
    pub fn new() -> (r: Self)
        ensures
            !r.started,
            r.target_key is None,
            r.commits@.len() == 0,
            r.head_sha is None,
            r.next_cursor is None,
            r.total_count is None,
            r.head_commit_count is None,
            !r.loading,
            r.error is None,
            r.graph.rows@.len() == 0,
            r.graph.max_lane_count == 0,
            r.copied_sha is None,
            !r.fetching_all,
            r.fetch_for is None,
            r.fetch_error is None,
            r.next_number == 0,
            r.awaited is None,
            r.fetch_awaited is None,
            r.copy_awaited is None,
    {
        GitHistory {
            started: false,
            target_key: None,
            commits: Vec::new(),
            head_sha: None,
            next_cursor: None,
            total_count: None,
            head_commit_count: None,
            loading: false,
            error: None,
            graph: GraphLayout { rows: Vec::new(), max_lane_count: 0 },
            copied_sha: None,
            fetching_all: false,
            fetch_for: None,
            fetch_error: None,
            next_number: 0,
            awaited: None,
            fetch_awaited: None,
            copy_awaited: None,
        }
    }

    /// `device|cwd` of the selected chat, with `local` for the engine's own device; none without a
    /// chat or a cwd.
    pub open spec fn key_for(cx: PaneContext) -> Option<Seq<char>> {
        match cx.chat {
            Some(chat) => match opt_text(chat.cwd) {
                Some(cwd) => {
                    let device = match Changes::target_for(cx) {
                        Some(device) => device,
                        None => "local"@,
                    };
                    Some(device + seq!['|'] + cwd)
                },
                None => None,
            },
            None => None,
        }
    }

    /// Where the selected chat's history is read.
    pub fn context(cx: &PaneContext) -> (r: Option<HistoryPlace>)
        ensures
            r is Some <==> Self::key_for(*cx) is Some,
            r is Some ==> {
                &&& Some(r->0.key@) == Self::key_for(*cx)
                &&& Some(r->0.cwd@) == opt_text(cx.chat->0.cwd)
                &&& opt_text(r->0.target) == Changes::target_for(*cx)
            },
    {
        match &cx.chat {
            Some(chat) => match &chat.cwd {
                Some(cwd) => {
                    let target = Changes::desired_target(cx);
                    let mut key = match &target {
                        Some(device) => device.clone(),
                        None => "local".to_owned(),
                    };
                    key.push('|');
                    key.push_str(cwd.as_str());
                    assert(Some(key@) == Self::key_for(*cx)) by {
                        let device = match Changes::target_for(*cx) {
                            Some(device) => device,
                            None => "local"@,
                        };
                        assert(key@ =~= device + seq!['|'] + cwd@);
                    }
                    Some(HistoryPlace { key, cwd: cwd.clone(), target })
                },
                None => None,
            },
            None => None,
        }
    }

    /// A page is asked for unless one is already on its way or the engine still boots.
    pub open spec fn asks(self, ready: bool) -> bool {
        !self.loading && ready
    }

    /// Whether `r` is the request for a page of `place`.
    pub open spec fn requests(r: PageRequest, place: HistoryPlace, cursor: usize, reset: bool) -> bool {
        &&& r.key@ == place.key@
        &&& r.cwd@ == place.cwd@
        &&& opt_text(r.target) == opt_text(place.target)
        &&& r.cursor == cursor
        &&& r.limit == HISTORY_PAGE_SIZE
        &&& r.reset == reset
    }

    /// Whether `r` asks for a page of the selected chat's history.
    pub open spec fn asks_for(r: PageRequest, cx: PaneContext, cursor: usize, reset: bool) -> bool {
        &&& Some(r.key@) == Self::key_for(cx)
        &&& Some(r.cwd@) == opt_text(cx.chat->0.cwd)
        &&& opt_text(r.target) == Changes::target_for(cx)
        &&& r.cursor == cursor
        &&& r.limit == HISTORY_PAGE_SIZE
        &&& r.reset == reset
    }

    /// How page requests are told apart (see [`crate::requests::numbered`]).
    pub open spec fn numbered(self, before: Self, r: Option<PageRequest>, kept: Option<u64>) -> bool {
        numbered(
            before.next_number,
            self.next_number,
            match r {
                Some(request) => Some(request.number),
                None => None,
            },
            self.awaited,
            kept,
        )
    }

    /// Everything but `loading`, `error` and how page requests are told apart is the same.
    pub open spec fn same_but_loading(self, other: Self) -> bool {
        &&& self.started == other.started
        &&& self.target_key == other.target_key
        &&& self.commits == other.commits
        &&& self.head_sha == other.head_sha
        &&& self.next_cursor == other.next_cursor
        &&& self.total_count == other.total_count
        &&& self.head_commit_count == other.head_commit_count
        &&& self.graph == other.graph
        &&& self.copied_sha == other.copied_sha
        &&& self.fetching_all == other.fetching_all
        &&& self.fetch_for == other.fetch_for
        &&& self.fetch_error == other.fetch_error
        &&& self.fetch_awaited == other.fetch_awaited
        &&& self.copy_awaited == other.copy_awaited
    }

    fn fetch_page(&mut self, place: HistoryPlace, cursor: usize, reset: bool, ready: bool) -> (r:
        Option<PageRequest>)
        ensures
            final(self).same_but_loading(*old(self)),
            final(self).numbered(*old(self), r, old(self).awaited),
            r is Some <==> old(self).asks(ready),
            r is None ==> *final(self) == *old(self),
            r is Some ==> {
                &&& Self::requests(r->0, place, cursor, reset)
                &&& final(self).loading
                &&& final(self).error is None
            },
    {
        if self.loading || !ready {
            return None;
        }
        self.loading = true;
        self.error = None;
        let number = take_number(&mut self.next_number);
        self.awaited = Some(number);
        Some(
            PageRequest {
                number,
                key: place.key,
                cwd: place.cwd,
                target: place.target,
                cursor,
                limit: HISTORY_PAGE_SIZE,
                reset,
            },
        )
    }

    /// Make sure the selected chat's history is there or on its way. Another place drops what was
    /// loaded; the same one is only read again where nothing came and nothing failed.
    pub fn ensure_loaded(&mut self, cx: &PaneContext) -> (r: Option<PageRequest>)
        ensures
            final(self).started,
            final(self).copied_sha == old(self).copied_sha,
            final(self).copy_awaited == old(self).copy_awaited,
            match Self::key_for(*cx) {
                None => {
                    &&& r is None
                    &&& final(self).target_key is None
                    &&& final(self).commits@.len() == 0
                    &&& final(self).total_count is None
                    &&& final(self).head_commit_count is None
                    &&& final(self).graph.rows@.len() == 0
                    &&& final(self).graph.max_lane_count == 0
                    &&& !final(self).loading
                    &&& !final(self).fetching_all
                    &&& final(self).fetch_for is None
                    &&& final(self).fetch_error is None
                    &&& final(self).fetch_awaited is None
                    &&& final(self).numbered(*old(self), r, old(self).awaited)
                    &&& final(self).head_sha == old(self).head_sha
                    &&& final(self).next_cursor == old(self).next_cursor
                    &&& final(self).error == old(self).error
                },
                Some(key) => if opt_text(old(self).target_key) == Some(key) {
                    let due = cx.engine_ready && !old(self).loading && old(self).commits@.len() == 0
                        && old(self).error is None;
                    &&& r is Some <==> due
                    &&& r is Some ==> Self::asks_for(r->0, *cx, 0, true)
                    &&& final(self).numbered(*old(self), r, old(self).awaited)
                    &&& final(self).same_but_loading(GitHistory { started: true, ..*old(self) })
                    &&& final(self).loading == (old(self).loading || due)
                    &&& final(self).error == old(self).error
                } else {
                    &&& r is Some <==> cx.engine_ready
                    &&& r is Some ==> Self::asks_for(r->0, *cx, 0, true)
                    &&& opt_text(final(self).target_key) == Some(key)
                    &&& final(self).commits@.len() == 0
                    &&& final(self).head_sha is None
                    &&& final(self).next_cursor is None
                    &&& final(self).total_count is None
                    &&& final(self).head_commit_count is None
                    &&& final(self).error is None
                    &&& final(self).graph.rows@.len() == 0
                    &&& final(self).graph.max_lane_count == 0
                    &&& final(self).loading == cx.engine_ready
                    &&& !final(self).fetching_all
                    &&& final(self).fetch_for is None
                    &&& final(self).fetch_error is None
                    &&& final(self).fetch_awaited is None
                    &&& final(self).numbered(*old(self), r, None)
                },
            },
    {
        self.started = true;
        let place = match Self::context(cx) {
            Some(place) => place,
            None => {
                self.fetching_all = false;
                self.fetch_for = None;
                self.fetch_error = None;
                self.fetch_awaited = None;
                self.target_key = None;
                self.commits = Vec::new();
                self.total_count = None;
                self.head_commit_count = None;
                self.graph = GraphLayout { rows: Vec::new(), max_lane_count: 0 };
                self.loading = false;
                return None;
            },
        };
        if is_text(&self.target_key, place.key.as_str()) {
            if !self.loading && self.commits.len() == 0 && self.error.is_none() {
                return self.fetch_page(place, 0, true, cx.engine_ready);
            }
            return None;
        }
        self.fetching_all = false;
        self.fetch_for = None;
        self.fetch_error = None;
        self.fetch_awaited = None;
        self.awaited = None;
        self.loading = false;
        self.target_key = Some(place.key.clone());
        self.commits = Vec::new();
        self.head_sha = None;
        self.next_cursor = None;
        self.total_count = None;
        self.head_commit_count = None;
        self.error = None;
        self.graph = GraphLayout { rows: Vec::new(), max_lane_count: 0 };
        self.fetch_page(place, 0, true, cx.engine_ready)
    }

    /// Read the first page again.
    pub fn refresh(&mut self, cx: &PaneContext) -> (r: Option<PageRequest>)
        ensures
            Self::key_for(*cx) is None ==> r is None && *final(self) == *old(self),
            Self::key_for(*cx) is Some ==> {
                &&& opt_text(final(self).target_key) == Self::key_for(*cx)
                &&& r is Some <==> old(self).asks(cx.engine_ready)
                &&& r is Some ==> Self::asks_for(r->0, *cx, 0, true)
                &&& final(self).numbered(*old(self), r, old(self).awaited)
                &&& final(self).same_but_loading(
                    GitHistory { target_key: final(self).target_key, ..*old(self) },
                )
                &&& final(self).loading == (old(self).loading || r is Some)
                &&& final(self).error == if r is Some {
                    None
                } else {
                    old(self).error
                }
            },
    {
        let place = match Self::context(cx) {
            Some(place) => place,
            None => {
                return None;
            },
        };
        self.target_key = Some(place.key.clone());
        self.fetch_page(place, 0, true, cx.engine_ready)
    }

    /// Read the page behind the last one, where there is one.
    pub fn load_older(&mut self, cx: &PaneContext) -> (r: Option<PageRequest>)
        ensures
            final(self).same_but_loading(*old(self)),
            final(self).numbered(*old(self), r, old(self).awaited),
            r is Some <==> old(self).next_cursor is Some && Self::key_for(*cx) is Some && old(self).asks(cx.engine_ready),
            r is None ==> *final(self) == *old(self),
            r is Some ==> {
                &&& Self::asks_for(r->0, *cx, old(self).next_cursor->0, false)
                &&& final(self).loading
                &&& final(self).error is None
            },
    {
        let cursor = match self.next_cursor {
            Some(cursor) => cursor,
            None => {
                return None;
            },
        };
        match Self::context(cx) {
            Some(place) => self.fetch_page(place, cursor, false, cx.engine_ready),
            None => None,
        }
    }

    /// Whether the answer to a page request is still wanted: no later request superseded it, and
    /// its place is the one shown.
    pub open spec fn wants_page(self, number: u64, key: Seq<char>) -> bool {
        self.awaited == Some(number) && opt_text(self.target_key) == Some(key)
    }

    /// A page that came back, or its failure; dropped where another request superseded its own, or
    /// another place is shown by now. Returns what the list must do.
    pub fn finish_page(
        &mut self,
        number: u64,
        key: &str,
        reset: bool,
        result: Result<GitHistoryPage, String>,
    ) -> (r: Option<ListChange>)
        requires
            result matches Ok(page) ==> old(self).commits@.len() + page.commits@.len() < usize::MAX,
        ensures
            !old(self).wants_page(number, key@) ==> r is None && *final(self) == *old(self),
            old(self).wants_page(number, key@) ==> {
                &&& !final(self).loading
                &&& final(self).awaited is None
                &&& final(self).next_number == old(self).next_number
                &&& final(self).fetch_awaited == old(self).fetch_awaited
                &&& final(self).started == old(self).started
                &&& final(self).target_key == old(self).target_key
                &&& final(self).copied_sha == old(self).copied_sha
                &&& final(self).copy_awaited == old(self).copy_awaited
                &&& final(self).fetching_all == old(self).fetching_all
                &&& final(self).fetch_for == old(self).fetch_for
                &&& final(self).fetch_error == old(self).fetch_error
                &&& match result {
                    Err(error) => {
                        &&& r is None
                        &&& final(self).error == Some(error)
                        &&& final(self).commits == old(self).commits
                        &&& final(self).head_sha == old(self).head_sha
                        &&& final(self).next_cursor == old(self).next_cursor
                        &&& final(self).total_count == old(self).total_count
                        &&& final(self).head_commit_count == old(self).head_commit_count
                        &&& final(self).graph == old(self).graph
                    },
                    Ok(page) => {
                        let loaded = if reset {
                            page.commits@
                        } else {
                            merged(old(self).commits@, page.commits@, page.commits@.len())
                        };
                        let st = after_commits(commit_models(loaded), opt_text(page.head_sha));
                        let count = item_count(loaded.len(), page.next_cursor);
                        &&& final(self).commits@ == loaded
                        &&& final(self).head_sha == page.head_sha
                        &&& final(self).next_cursor == page.next_cursor
                        &&& final(self).total_count == if reset || page.total_count is Some {
                            page.total_count
                        } else {
                            old(self).total_count
                        }
                        &&& final(self).head_commit_count == if reset
                            || page.head_commit_count is Some {
                            page.head_commit_count
                        } else {
                            old(self).head_commit_count
                        }
                        &&& final(self).error == old(self).error
                        &&& row_models(final(self).graph.rows@) == st.rows
                        &&& final(self).graph.max_lane_count == st.max_lanes
                        &&& r == Some(
                            if reset {
                                ListChange::Reset(count as usize)
                            } else {
                                ListChange::Splice {
                                    start: old(self).commits@.len() as usize,
                                    end: item_count(
                                        old(self).commits@.len(),
                                        old(self).next_cursor,
                                    ) as usize,
                                    count: (count - old(self).commits@.len()) as usize,
                                }
                            },
                        )
                    },
                }
            },
    {
        if self.awaited != Some(number) || !is_text(&self.target_key, key) {
            return None;
        }
        self.awaited = None;
        self.loading = false;
        match result {
            Err(error) => {
                self.error = Some(error);
                None
            },
            Ok(page) => {
                let ghost before = self.commits@;
                proof {
                    lemma_merged(before, page.commits@, page.commits@.len());
                }
                let old_commits: usize = self.commits.len();
                let old_items: usize = if self.next_cursor.is_some() {
                    old_commits + 1
                } else {
                    old_commits
                };
                if reset {
                    self.commits = page.commits;
                    self.total_count = page.total_count;
                    self.head_commit_count = page.head_commit_count;
                } else {
                    merge(&mut self.commits, page.commits);
                    if page.total_count.is_some() {
                        self.total_count = page.total_count;
                    }
                    if page.head_commit_count.is_some() {
                        self.head_commit_count = page.head_commit_count;
                    }
                }
                self.head_sha = page.head_sha;
                self.next_cursor = page.next_cursor;
                self.graph = layout_graph(&self.commits, as_opt_str(&self.head_sha));
                let items: usize = if self.next_cursor.is_some() {
                    self.commits.len() + 1
                } else {
                    self.commits.len()
                };
                if reset {
                    Some(ListChange::Reset(items))
                } else {
                    Some(
                        ListChange::Splice {
                            start: old_commits,
                            end: old_items,
                            count: items - old_commits,
                        },
                    )
                }
            },
        }
    }

    /// Fetch all remotes, one at a time.
    pub fn fetch_all(&mut self, cx: &PaneContext) -> (r: Option<FetchRequest>)
        ensures
            r is Some <==> !old(self).fetching_all && Self::key_for(*cx) is Some && cx.engine_ready,
            r is None ==> *final(self) == *old(self),
            r is Some ==> {
                &&& r->0.number == old(self).next_number
                &&& Some(r->0.place.key@) == Self::key_for(*cx)
                &&& Some(r->0.place.cwd@) == opt_text(cx.chat->0.cwd)
                &&& opt_text(r->0.place.target) == Changes::target_for(*cx)
                &&& opt_text(final(self).fetch_for) == Self::key_for(*cx)
                &&& *final(self) == (GitHistory {
                    fetching_all: true,
                    fetch_for: final(self).fetch_for,
                    fetch_error: None,
                    fetch_awaited: Some(r->0.number),
                    next_number: following(old(self).next_number),
                    ..*old(self)
                })
            },
    {
        if self.fetching_all || !cx.engine_ready {
            return None;
        }
        let place = match Self::context(cx) {
            Some(place) => place,
            None => {
                return None;
            },
        };
        self.fetching_all = true;
        self.fetch_for = Some(place.key.clone());
        self.fetch_error = None;
        let number = take_number(&mut self.next_number);
        self.fetch_awaited = Some(number);
        Some(FetchRequest { number, place })
    }

    /// Whether the outcome of a fetch of all remotes is still wanted.
    pub open spec fn wants_fetch(self, request: FetchRequest) -> bool {
        self.fetch_awaited == Some(request.number) && opt_text(self.fetch_for) == Some(
            request.place.key@,
        )
    }

    /// The fetch ended. Where it succeeded the first page is read again — a page on its way is
    /// given up, so that the next one is sure to see the updated remote refs — and the host is
    /// told. An outcome that is no longer wanted is dropped.
    pub fn finish_fetch(
        &mut self,
        request: FetchRequest,
        result: Result<(), String>,
        ready: bool,
    ) -> (r: (Option<GitHistoryEvent>, Option<PageRequest>))
        ensures
            !old(self).wants_fetch(request) ==> r.0 is None && r.1 is None && *final(self) == *old(
                self,
            ),
            old(self).wants_fetch(request) ==> {
                &&& final(self).same_but_loading(
                    GitHistory {
                        fetching_all: false,
                        fetch_for: None,
                        fetch_awaited: None,
                        fetch_error: match result {
                            Ok(_) => None,
                            Err(error) => Some(error),
                        },
                        ..*old(self)
                    },
                )
                &&& match result {
                    Ok(_) => {
                        &&& r.0 matches Some(e) && e is FetchSucceeded
                        &&& r.1 is Some <==> ready
                        &&& r.1 is Some ==> Self::requests(r.1->0, request.place, 0, true)
                        &&& final(self).numbered(*old(self), r.1, None)
                        &&& final(self).loading == ready
                        &&& final(self).error == if ready {
                            None
                        } else {
                            old(self).error
                        }
                    },
                    Err(error) => {
                        &&& r.0 is None
                        &&& r.1 is None
                        &&& final(self).numbered(*old(self), r.1, old(self).awaited)
                        &&& final(self).loading == old(self).loading
                        &&& final(self).error == old(self).error
                    },
                }
            },
    {
        if self.fetch_awaited != Some(request.number) || !is_text(
            &self.fetch_for,
            request.place.key.as_str(),
        ) {
            return (None, None);
        }
        self.fetching_all = false;
        self.fetch_for = None;
        self.fetch_awaited = None;
        match result {
            Ok(_) => {
                self.fetch_error = None;
                self.awaited = None;
                self.loading = false;
                let page = self.fetch_page(request.place, 0, true, ready);
                (Some(GitHistoryEvent::FetchSucceeded), page)
            },
            Err(error) => {
                self.fetch_error = Some(error);
                (None, None)
            },
        }
    }

    pub fn commit_count(&self) -> (r: Option<usize>)
        ensures
            r == self.head_commit_count,
    {
        self.head_commit_count
    }

    /// The branch the selected chat works on.
    pub fn current_branch(&self, cx: &PaneContext) -> (r: Option<String>)
        ensures
            opt_text(r) == match cx.chat {
                Some(chat) => opt_text(chat.branch),
                None => None,
            },
    {
        match &cx.chat {
            Some(chat) => copy_opt(&chat.branch),
            None => None,
        }
    }

    /// The sha was copied: its row says so until the timer has run off.
    pub fn copy_sha(&mut self, sha: String) -> (r: CopyTimer)
        ensures
            r == (CopyTimer { number: old(self).next_number, shown: COPIED_MS }),
            *final(self) == (GitHistory {
                copied_sha: Some(sha),
                copy_awaited: Some(r.number),
                next_number: following(old(self).next_number),
                ..*old(self)
            }),
    {
        self.copied_sha = Some(sha);
        let number = take_number(&mut self.next_number);
        self.copy_awaited = Some(number);
        CopyTimer { number, shown: COPIED_MS }
    }

    /// A timer ran off. One that a later copy superseded ends nothing.
    pub fn copy_expired(&mut self, number: u64)
        ensures
            *final(self) == if old(self).copy_awaited == Some(number) {
                GitHistory { copied_sha: None, copy_awaited: None, ..*old(self) }
            } else {
                *old(self)
            },
    {
        if self.copy_awaited == Some(number) {
            self.copied_sha = None;
            self.copy_awaited = None;
        }
    }

    pub open spec fn count_text(count: nat) -> Seq<char> {
        decimal(count) + if count == 1 {
            " commit"@
        } else {
            " commits"@
        }
    }

    /// The header's commit count.
    pub fn count_label(&self) -> (r: Option<String>)
        ensures
            opt_text(r) == match self.head_commit_count {
                Some(count) => Some(Self::count_text(count as nat)),
                None => None,
            },
    {
        match self.head_commit_count {
            Some(count) => {
                let mut r = String::new();
                push_decimal(&mut r, count as u64);
                if count == 1 {
                    r.push_str(" commit");
                } else {
                    r.push_str(" commits");
                }
                assert(r@ =~= Self::count_text(count as nat));
                Some(r)
            },
            None => None,
        }
    }

    /// The fetch button's label.
    pub fn fetch_label(&self) -> (r: &'static str)
        ensures
            r@ == if self.fetching_all {
                "Fetching…"@
            } else {
                "Fetch all"@
            },
    {
        if self.fetching_all {
            "Fetching…"
        } else {
            "Fetch all"
        }
    }

    /// What stands where the rows would be, while there are none.
    pub fn empty_state(&self) -> (r: Option<EmptyHistory>)
        ensures
            r is Some <==> self.target_key is None || self.commits@.len() == 0,
            r is Some ==> {
                let warned = self.target_key is Some && !self.loading && self.error is Some;
                &&& r->0.message@ == if self.target_key is None {
                    "No repository selected"@
                } else if self.loading {
                    "Loading history…"@
                } else {
                    match opt_text(self.error) {
                        Some(error) => error,
                        None => "No commits found"@,
                    }
                }
                &&& r->0.spinner == (self.target_key is Some && self.loading)
                &&& r->0.warn == warned
            },
    {
        if self.target_key.is_none() {
            Some(
                EmptyHistory {
                    message: "No repository selected".to_owned(),
                    spinner: false,
                    warn: false,
                },
            )
        } else if self.commits.len() > 0 {
            None
        } else if self.loading {
            Some(
                EmptyHistory { message: "Loading history…".to_owned(), spinner: true, warn: false },
            )
        } else {
            match &self.error {
                Some(error) => Some(
                    EmptyHistory { message: error.clone(), spinner: false, warn: true },
                ),
                None => Some(
                    EmptyHistory {
                        message: "No commits found".to_owned(),
                        spinner: false,
                        warn: false,
                    },
                ),
            }
        }
    }

    /// The bars above the rows: that a fetch of all remotes failed, and that a page did while rows
    /// are shown — without rows the failure stands in their place.
    pub fn banners(&self) -> (r: HistoryBanners)
        ensures
            opt_text(r.fetch) == match opt_text(self.fetch_error) {
                Some(error) => Some("Fetch failed: "@ + error),
                None => None,
            },
            opt_text(r.page) == if self.commits@.len() > 0 {
                opt_text(self.error)
            } else {
                None
            },
    {
        let fetch = match &self.fetch_error {
            Some(error) => {
                let mut text = "Fetch failed: ".to_owned();
                text.push_str(error.as_str());
                Some(text)
            },
            None => None,
        };
        let page = if self.commits.len() > 0 {
            copy_opt(&self.error)
        } else {
            None
        };
        HistoryBanners { fetch, page }
    }

    /// The label of the row that closes the list.
    pub fn older_label(&self) -> (r: &'static str)
        ensures
            r@ == if self.loading {
                "Loading…"@
            } else if self.error is Some {
                "Retry"@
            } else {
                "Load more"@
            },
    {
        if self.loading {
            "Loading…"
        } else if self.error.is_some() {
            "Retry"
        } else {
            "Load more"
        }
    }

    /// The text columns of a commit's row.
    pub fn row_texts(&self, index: usize) -> (r: Option<CommitTexts>)
        ensures
            r is Some <==> index < self.commits@.len() && index < self.graph.rows@.len(),
            r is Some ==> {
                let commit = self.commits@[index as int];
                &&& r->0.subject@ == if commit.subject@.len() == 0 {
                    "(no subject)"@
                } else {
                    commit.subject@
                }
                &&& r->0.author@ == if commit.author_name@.len() == 0 {
                    "Unknown"@
                } else {
                    commit.author_name@
                }
                &&& r->0.date@ == date_text(rfc3339_date(commit.authored_at@))
                &&& r->0.copied == (opt_text(self.copied_sha) == Some(commit.sha@))
                &&& r->0.sha@ == if r->0.copied {
                    "Copied"@
                } else {
                    first_chars(commit.sha@, 7)
                }
            },
    {
        if index >= self.commits.len() || index >= self.graph.rows.len() {
            return None;
        }
        let commit = &self.commits[index];
        let copied = is_text(&self.copied_sha, commit.sha.as_str());
        Some(
            CommitTexts {
                subject: if commit.subject.as_str().is_empty() {
                    "(no subject)".to_owned()
                } else {
                    commit.subject.clone()
                },
                author: if commit.author_name.as_str().is_empty() {
                    "Unknown".to_owned()
                } else {
                    commit.author_name.clone()
                },
                date: format_date(commit.authored_at.as_str()),
                sha: if copied {
                    "Copied".to_owned()
                } else {
                    leading(commit.sha.as_str(), 7)
                },
                copied,
            },
        )
    }
}

/// The texts of the bars above the rows.
#[derive(Debug, PartialEq, Eq)]
pub struct HistoryBanners {
    pub fetch: Option<String>,
    pub page: Option<String>,
}

/// What an empty history pane shows.
#[derive(Debug, PartialEq, Eq)]
pub struct EmptyHistory {
    pub message: String,
    pub spinner: bool,
    pub warn: bool,
}

/// The text columns of a commit's row.
#[derive(Debug, PartialEq, Eq)]
pub struct CommitTexts {
    pub subject: String,
    pub author: String,
    pub date: String,
    pub sha: String,
    pub copied: bool,
}

/// What a page adds stands behind the loaded commits in the page's own order, and is of the page.
pub proof fn law_pages_keep_their_order(
    commits: Seq<GitHistoryCommit>,
    page: Seq<GitHistoryCommit>,
    n: nat,
    i: int,
    j: int,
)
    requires
        n <= page.len(),
        commits.len() <= i <= j < merged(commits, page, n).len(),
    ensures
        exists|x: int, y: int|
            0 <= x <= y < n && (i < j ==> x < y) && #[trigger] page[x] == merged(commits, page, n)[i]
                && #[trigger] page[y] == merged(commits, page, n)[j],
    decreases n,
{
    let m = (n - 1) as nat;
    let before = merged(commits, page, m);
    let after = merged(commits, page, n);
    if n > 0 {
        lemma_merged(commits, page, m);
        if j < before.len() {
            law_pages_keep_their_order(commits, page, m, i, j);
            let (x, y) = choose|x: int, y: int|
                0 <= x <= y < m && (i < j ==> x < y) && #[trigger] page[x] == before[i]
                    && #[trigger] page[y] == before[j];
            assert(page[x] == after[i] && page[y] == after[j]);
        } else if i < j {
            law_pages_keep_their_order(commits, page, m, i, i);
            let (x, y) = choose|x: int, y: int|
                0 <= x <= y < m && (i < i ==> x < y) && #[trigger] page[x] == before[i]
                    && #[trigger] page[y] == before[i];
            assert(page[x] == after[i] && page[m as int] == after[j]);
        } else {
            assert(page[m as int] == after[i]);
        }
    }
}

/// A commit of a page that was not there, and that the page holds once, is added as it is.
pub proof fn law_new_commits_are_added(
    commits: Seq<GitHistoryCommit>,
    page: Seq<GitHistoryCommit>,
    k: int,
)
    requires
        0 <= k < page.len(),
        !has_sha(commits, page[k].sha@),
        forall|j: int| 0 <= j < k ==> (#[trigger] page[j]).sha@ != page[k].sha@,
    ensures
        merged(commits, page, page.len()).contains(page[k]),
{
    lemma_new_commit(commits, page, k, k as nat);
    lemma_new_commit(commits, page, k, page.len());
}

proof fn lemma_new_commit(
    commits: Seq<GitHistoryCommit>,
    page: Seq<GitHistoryCommit>,
    k: int,
    n: nat,
)
    requires
        0 <= k < page.len(),
        n <= page.len(),
        !has_sha(commits, page[k].sha@),
        forall|j: int| 0 <= j < k ==> (#[trigger] page[j]).sha@ != page[k].sha@,
    ensures
        n <= k ==> !has_sha(merged(commits, page, n), page[k].sha@),
        n > k ==> merged(commits, page, n).contains(page[k]),
    decreases n,
{
    if n > 0 {
        let m = (n - 1) as nat;
        lemma_new_commit(commits, page, k, m);
        let before = merged(commits, page, m);
        let after = merged(commits, page, n);
        if n <= k {
            if has_sha(after, page[k].sha@) {
                let i = choose|i: int|
                    0 <= i < after.len() && (#[trigger] after[i]).sha@ == page[k].sha@;
                assert(page[m as int].sha@ != page[k].sha@);
                assert(before[i].sha@ == page[k].sha@);
            }
        } else if n == k + 1 {
            assert(after[before.len() as int] == page[k]);
        } else {
            let i = choose|i: int| 0 <= i < before.len() && before[i] == page[k];
            assert(after[i] == page[k]);
        }
    }
}

/// Months go by their names, in order.
#[verifier::rlimit(50)]
pub proof fn law_months_are_in_order(m: int)
    requires
        1 <= m <= 12,
    ensures
        month_name(m) == "JanFebMarAprMayJunJulAugSepOctNovDec"@.subrange(3 * (m - 1), 3 * m),
{
    reveal_strlit("JanFebMarAprMayJunJulAugSepOctNovDec");
    reveal_strlit("Jan");
    reveal_strlit("Feb");
    reveal_strlit("Mar");
    reveal_strlit("Apr");
    reveal_strlit("May");
    reveal_strlit("Jun");
    reveal_strlit("Jul");
    reveal_strlit("Aug");
    reveal_strlit("Sep");
    reveal_strlit("Oct");
    reveal_strlit("Nov");
    reveal_strlit("Dec");
    assert(month_name(m) =~= "JanFebMarAprMayJunJulAugSepOctNovDec"@.subrange(
        3 * (m - 1),
        3 * m,
    ));
}

/// A year is written in four digits, and reads as that year.
#[verifier::rlimit(50)]
pub proof fn law_years_have_four_digits(y: int)
    requires
        0 <= y <= 9999,
    ensures
        year_text(y).len() == 4,
        parse_decimal(year_text(y)) == Some(y as nat),
{
    let digits = decimal(y as nat);
    law_decimals_are_read_back(y as nat);
    lemma_decimal(y as nat);
    reveal_with_fuel(decimal, 5);
    let zeros = year_text(y).take(4 - digits.len());
    assert(year_text(y) =~= zeros + digits);
    lemma_leading_zeros(zeros, digits);
    assert(all_digits(year_text(y)));
    assert(is_digit(year_text(y)[0]));
    assert(without_plus(digits) == digits) by {
        assert(is_digit(digits[0]));
    }
}

proof fn lemma_leading_zeros(zeros: Seq<char>, digits: Seq<char>)
    requires
        forall|i: int| 0 <= i < zeros.len() ==> #[trigger] zeros[i] == '0',
        all_digits(digits),
    ensures
        digits_value(zeros + digits) == digits_value(digits),
    decreases digits.len(), zeros.len(),
{
    let all = zeros + digits;
    if digits.len() > 0 {
        assert(all.drop_last() =~= zeros + digits.drop_last());
        assert forall|i: int| 0 <= i < digits.len() - 1 implies is_digit(
            #[trigger] digits.drop_last()[i],
        ) by {
            assert(is_digit(digits[i]));
        }
        lemma_leading_zeros(zeros, digits.drop_last());
    } else if zeros.len() > 0 {
        assert(all =~= zeros);
        assert(zeros.drop_last() + digits =~= zeros.drop_last());
        lemma_leading_zeros(zeros.drop_last(), digits);
    } else {
        assert(all =~= digits);
    }
}

/// The list has a row for each commit, and one more while there is more to load.
pub proof fn law_more_is_offered_while_there_is_more(commits: nat, next_cursor: Option<usize>)
    ensures
        item_count(commits, next_cursor) > commits <==> next_cursor is Some,
        item_count(commits, next_cursor) <= commits + 1,
        item_count(commits, next_cursor) >= commits,
{
}

/// A history is read where the chat's checkout is: on its device and in its directory. Without a
/// chat or a directory there is none, and on one device different directories are told apart.
pub proof fn law_histories_are_told_apart(cx: PaneContext, other: PaneContext)
    ensures
        GitHistory::key_for(cx) is Some <==> cx.chat is Some && cx.chat->0.cwd is Some,
        Changes::target_for(cx) == Changes::target_for(other) && GitHistory::key_for(cx) is Some
            && GitHistory::key_for(cx) == GitHistory::key_for(other) ==> (cx.chat->0.cwd->0)@ == (
        other.chat->0.cwd->0)@,
{
    if Changes::target_for(cx) == Changes::target_for(other) && GitHistory::key_for(cx) is Some
        && GitHistory::key_for(cx) == GitHistory::key_for(other) {
        let device = match Changes::target_for(cx) {
            Some(device) => device,
            None => "local"@,
        };
        let n = device.len() as int + 1;
        let a = (cx.chat->0.cwd->0)@;
        let b = (other.chat->0.cwd->0)@;
        assert(a =~= (device + seq!['|'] + a).skip(n));
        assert(b =~= (device + seq!['|'] + b).skip(n));
    }
}

/// A ref is described by its kind and its name.
pub proof fn law_refs_are_described_by_kind(reference: GitHistoryRef)
    ensures
        reference.kind == GitHistoryRefKind::Branch ==> ref_text(reference) == "Branch: "@
            + reference.label@,
        reference.kind == GitHistoryRefKind::Remote ==> ref_text(reference) == "Remote branch: "@
            + reference.label@,
        reference.kind == GitHistoryRefKind::Tag ==> ref_text(reference) == "Tag: "@
            + reference.label@,
{
}

/// Commits are counted, and a single one as one.
pub proof fn law_commits_are_counted(count: nat)
    ensures
        count != 1 ==> GitHistory::count_text(count) == decimal(count) + " commits"@,
        count == 1 ==> GitHistory::count_text(count) == decimal(count) + " commit"@,
{
}

} // verus!
