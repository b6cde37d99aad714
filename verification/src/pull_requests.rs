//! Repository-wide pull requests from the configured source-control providers: which are asked for,
//! which are shown, in which sections, and what their rows and details say.

use vstd::prelude::*;

use crate::requests::{numbered, take_number};
use crate::text::{
    ascii_folded, before, chars_of, comes_before, contains, decimal, first_at, folded, holds,
    lemma_before_chain, lemma_before_total, lemma_first_from, occurs_at, opt_str, opt_text, push_decimal, same_ignoring_case,
    same_str, string_of, texts, trim, trimmed,
};

verus! {

#[derive(Debug, Clone, Copy, PartialEq, Eq, Structural)]
pub enum ChangeRequestState {
    Open,
    Closed,
    Merged,
}

#[derive(Debug, Clone, Copy, PartialEq, Eq, Structural)]
pub enum PullRequestReviewState {
    NoReview,
    Required,
    Approved,
    ChangesRequested,
}

#[derive(Debug, Clone, Copy, PartialEq, Eq, Structural)]
pub enum PullRequestChecksState {
    NoChecks,
    Pending,
    Passing,
    Failing,
}

/// A pull request as its provider lists it.
pub struct PullRequestListItem {
    pub provider: String,
    pub repository: String,
    pub number: u64,
    pub title: String,
    pub description: Option<String>,
    pub author: Option<String>,
    pub url: String,
    pub head_ref: String,
    pub base_ref: String,
    pub state: ChangeRequestState,
    pub draft: bool,
    pub review: PullRequestReviewState,
    pub checks: PullRequestChecksState,
    pub changed_files: u64,
    pub additions: u64,
    pub deletions: u64,
}

#[derive(Debug, Clone, Copy, PartialEq, Eq, Structural)]
pub enum StateFilter {
    Open,
    All,
    Closed,
    Merged,
}

#[derive(Debug, Clone, Copy, PartialEq, Eq, Structural)]
pub enum InvolvementFilter {
    All,
    Reviewing,
    Authored,
}

#[derive(Debug, Clone, Copy, PartialEq, Eq, Structural)]
pub enum DraftFilter {
    All,
    DraftsOnly,
    HideDrafts,
}

#[derive(Debug, Clone, Copy, PartialEq, Eq, Structural)]
pub enum ReviewFilter {
    All,
    Approved,
    ChangesRequested,
    Required,
    NoReview,
}

#[derive(Debug, Clone, Copy, PartialEq, Eq, Structural)]
pub enum ChecksFilter {
    All,
    Passing,
    Failing,
    Pending,
}

#[derive(Debug, Clone, Copy, PartialEq, Eq, Structural)]
pub enum HostFilter {
    All,
    Github,
    Bitbucket,
}

#[derive(Debug, PartialEq, Eq)]
pub enum ProjectFilter {
    All,
    Repository(String),
}

pub struct PullRequestFilters {
    pub state: StateFilter,
    pub involvement: InvolvementFilter,
    pub draft: DraftFilter,
    pub review: ReviewFilter,
    pub checks: ChecksFilter,
    pub host: HostFilter,
    pub project: ProjectFilter,
}

impl Default for PullRequestFilters {
    fn default() -> (r: Self)
        ensures
            r.state == StateFilter::Open,
            r.involvement == InvolvementFilter::All,
            r.draft == DraftFilter::All,
            r.review == ReviewFilter::All,
            r.checks == ChecksFilter::All,
            r.host == HostFilter::All,
            r.project is All,
    {
        PullRequestFilters {
            state: StateFilter::Open,
            involvement: InvolvementFilter::All,
            draft: DraftFilter::All,
            review: ReviewFilter::All,
            checks: ChecksFilter::All,
            host: HostFilter::All,
            project: ProjectFilter::All,
        }
    }
}

// ---------------------------------------------------------------------------
// Filters
// ---------------------------------------------------------------------------

/// Whether a text holds the query, whatever its ASCII case.
pub open spec fn mentions(text: Seq<char>, query: Seq<char>) -> bool {
    contains(ascii_folded(text), query)
}

impl PullRequestFilters {
    pub open spec fn state_admits(self, item: PullRequestListItem) -> bool {
        match self.state {
            StateFilter::Open => item.state == ChangeRequestState::Open,
            StateFilter::All => true,
            StateFilter::Closed => item.state == ChangeRequestState::Closed,
            StateFilter::Merged => item.state == ChangeRequestState::Merged,
        }
    }

    pub open spec fn involvement_admits(self, item: PullRequestListItem) -> bool {
        self.involvement == InvolvementFilter::Reviewing ==> item.review
            == PullRequestReviewState::Required
    }

    pub open spec fn draft_admits(self, item: PullRequestListItem) -> bool {
        match self.draft {
            DraftFilter::All => true,
            DraftFilter::DraftsOnly => item.draft,
            DraftFilter::HideDrafts => !item.draft,
        }
    }

    pub open spec fn review_admits(self, item: PullRequestListItem) -> bool {
        match self.review {
            ReviewFilter::All => true,
            ReviewFilter::Approved => item.review == PullRequestReviewState::Approved,
            ReviewFilter::ChangesRequested => item.review
                == PullRequestReviewState::ChangesRequested,
            ReviewFilter::Required => item.review == PullRequestReviewState::Required,
            ReviewFilter::NoReview => item.review == PullRequestReviewState::NoReview,
        }
    }

    pub open spec fn checks_admit(self, item: PullRequestListItem) -> bool {
        match self.checks {
            ChecksFilter::All => true,
            ChecksFilter::Passing => item.checks == PullRequestChecksState::Passing,
            ChecksFilter::Failing => item.checks == PullRequestChecksState::Failing,
            ChecksFilter::Pending => item.checks == PullRequestChecksState::Pending,
        }
    }

    pub open spec fn host_admits(self, item: PullRequestListItem) -> bool {
        match self.host {
            HostFilter::All => true,
            HostFilter::Github => item.provider@ == "github"@,
            HostFilter::Bitbucket => item.provider@ == "bitbucket"@,
        }
    }

    pub open spec fn project_admits(self, item: PullRequestListItem) -> bool {
        match self.project {
            ProjectFilter::All => true,
            ProjectFilter::Repository(repository) => item.repository@ == repository@,
        }
    }

    /// Whether a pull request is shown: it passes every filter, and its title, repository,
    /// provider or author mentions the query.
    pub open spec fn admits(self, item: PullRequestListItem, query: Seq<char>) -> bool {
        &&& self.state_admits(item)
        &&& self.involvement_admits(item)
        &&& self.draft_admits(item)
        &&& self.review_admits(item)
        &&& self.checks_admit(item)
        &&& self.host_admits(item)
        &&& self.project_admits(item)
        &&& query.len() == 0 || mentions(item.title@, query) || mentions(item.repository@, query)
            || mentions(item.provider@, query) || (opt_text(item.author) matches Some(author)
            && mentions(author, query))
    }

    /// Whether a pull request is shown for a query that is in lower case already.
    pub fn matches_filter(&self, item: &PullRequestListItem, query: &[char]) -> (r: bool)
        ensures
            r == self.admits(*item, query@),
    {
        let state_matches = match self.state {
            StateFilter::Open => item.state == ChangeRequestState::Open,
            StateFilter::All => true,
            StateFilter::Closed => item.state == ChangeRequestState::Closed,
            StateFilter::Merged => item.state == ChangeRequestState::Merged,
        };
        let involvement_matches = self.involvement != InvolvementFilter::Reviewing || item.review
            == PullRequestReviewState::Required;
        let draft_matches = match self.draft {
            DraftFilter::All => true,
            DraftFilter::DraftsOnly => item.draft,
            DraftFilter::HideDrafts => !item.draft,
        };
        let review_matches = match self.review {
            ReviewFilter::All => true,
            ReviewFilter::Approved => item.review == PullRequestReviewState::Approved,
            ReviewFilter::ChangesRequested => item.review
                == PullRequestReviewState::ChangesRequested,
            ReviewFilter::Required => item.review == PullRequestReviewState::Required,
            ReviewFilter::NoReview => item.review == PullRequestReviewState::NoReview,
        };
        let checks_matches = match self.checks {
            ChecksFilter::All => true,
            ChecksFilter::Passing => item.checks == PullRequestChecksState::Passing,
            ChecksFilter::Failing => item.checks == PullRequestChecksState::Failing,
            ChecksFilter::Pending => item.checks == PullRequestChecksState::Pending,
        };
        let host_matches = match self.host {
            HostFilter::All => true,
            HostFilter::Github => same_str(item.provider.as_str(), "github"),
            HostFilter::Bitbucket => same_str(item.provider.as_str(), "bitbucket"),
        };
        let project_matches = match &self.project {
            ProjectFilter::All => true,
            ProjectFilter::Repository(repository) => same_str(
                item.repository.as_str(),
                repository.as_str(),
            ),
        };
        if !(state_matches && involvement_matches && draft_matches && review_matches
            && checks_matches && host_matches && project_matches) {
            return false;
        }
        query.len() == 0 || mentioned(item.title.as_str(), query) || mentioned(
            item.repository.as_str(),
            query,
        ) || mentioned(item.provider.as_str(), query) || match &item.author {
            Some(author) => mentioned(author.as_str(), query),
            None => false,
        }
    }
}

fn mentioned(text: &str, query: &[char]) -> (r: bool)
    ensures
        r == mentions(text@, query@),
{
    let text = folded(text);
    holds(text.as_slice(), query)
}

/// What is searched for: the typed text without blanks around it, in lower case.
pub open spec fn query_of(typed: Seq<char>) -> Seq<char> {
    ascii_folded(trim(typed))
}

/// What is searched for.
pub fn search_query(typed: &str) -> (r: Vec<char>)
    ensures
        r@ == query_of(typed@),
{
    let chars = chars_of(typed);
    let bare = string_of(trimmed(chars.as_slice()));
    folded(bare.as_str())
}

// ---------------------------------------------------------------------------
// The page
// ---------------------------------------------------------------------------

/// A list that is loaded, on its way, or failed.
pub enum Loadable {
    Idle,
    Loading,
    Ready(Vec<PullRequestListItem>),
    Error(String),
}

/// The account of a provider.
pub struct Account {
    pub provider: String,
    pub account: String,
}

/// A provider's connection, with its account where it is signed in.
pub struct SourceControlConnection {
    pub provider: String,
    pub account: Option<String>,
}

/// What tells a pull request from the others.
pub struct PullRequestKey {
    pub provider: String,
    pub repository: String,
    pub number: u64,
}

impl PullRequestKey {
    pub open spec fn names(self, item: PullRequestListItem) -> bool {
        self.provider@ == item.provider@ && self.repository@ == item.repository@ && self.number
            == item.number
    }

    pub fn is_of(&self, item: &PullRequestListItem) -> (r: bool)
        ensures
            r == self.names(*item),
    {
        same_str(self.provider.as_str(), item.provider.as_str()) && same_str(
            self.repository.as_str(),
            item.repository.as_str(),
        ) && self.number == item.number
    }

    pub fn of(item: &PullRequestListItem) -> (r: Self)
        ensures
            r.names(*item),
    {
        PullRequestKey {
            provider: item.provider.clone(),
            repository: item.repository.clone(),
            number: item.number,
        }
    }
}

/// What the engine is asked for.
#[derive(Debug, PartialEq, Eq)]
pub struct ListRequest {
    /// Tells the request from every other one of the page.
    pub number: u64,
    pub state: &'static str,
    pub authored: bool,
    pub host: Option<&'static str>,
    pub project: Option<String>,
    pub refresh: bool,
    /// Whether the accounts are asked for along.
    pub with_accounts: bool,
}

pub struct PullRequestsPage {
    pub pull_requests: Loadable,
    pub authored_accounts: Vec<Account>,
    pub accounts_loaded: bool,
    pub selected: Option<PullRequestKey>,
    pub filters: PullRequestFilters,
    /// The number of the next request.
    pub next_number: u64,
    /// The request whose answer is still wanted.
    pub awaited: Option<u64>,
}

/// What follows from a choice of filter.
#[derive(Debug, Clone, Copy, PartialEq, Eq, Structural)]
pub struct FilterStep {
    /// The filter menu closes.
    pub closes: bool,
    /// The list is loaded anew.
    pub reloads: bool,
}

/// Which of the sections of the page a row stands in.
#[derive(Debug, Clone, Copy, PartialEq, Eq, Structural)]
pub enum Section {
    ReviewRequested,
    Authored,
    Others,
}

impl Section {
    pub fn label(self) -> (r: &'static str)
        ensures
            r@ == match self {
                Section::ReviewRequested => "Review requested"@,
                Section::Authored => "Authored"@,
                Section::Others => "Others"@,
            },
    {
        match self {
            Section::ReviewRequested => "Review requested",
            Section::Authored => "Authored",
            Section::Others => "Others",
        }
    }
}

/// Whether some account is the author's.
pub open spec fn owns(accounts: Seq<Account>, provider: Seq<char>, author: Seq<char>) -> bool {
    exists|i: int|
        0 <= i < accounts.len() && (#[trigger] accounts[i]).provider@ == provider && ascii_folded(
            author,
        ) == ascii_folded(accounts[i].account@)
}

/// The rows of the first `n` items: the indices of those that are shown.
pub open spec fn shown_upto(
    filters: PullRequestFilters,
    items: Seq<PullRequestListItem>,
    query: Seq<char>,
    n: nat,
) -> Seq<int>
    decreases n,
{
    if n == 0 {
        Seq::empty()
    } else {
        let front = shown_upto(filters, items, query, (n - 1) as nat);
        if filters.admits(items[n - 1], query) {
            front.push(n - 1)
        } else {
            front
        }
    }
}

/// Exactly the admitted items are shown, each once and in their order.
pub proof fn law_filtering_keeps_order(
    filters: PullRequestFilters,
    items: Seq<PullRequestListItem>,
    query: Seq<char>,
    n: nat,
)
    requires
        n <= items.len(),
    ensures
        ({
            let shown = shown_upto(filters, items, query, n);
            &&& forall|k: int|
                0 <= k < shown.len() ==> 0 <= #[trigger] shown[k] < n && filters.admits(
                    items[shown[k]],
                    query,
                )
            &&& forall|k: int, l: int|
                0 <= k < l < shown.len() ==> #[trigger] shown[k] < #[trigger] shown[l]
            &&& forall|i: int|
                0 <= i < n && #[trigger] filters.admits(items[i], query) ==> shown.contains(i)
        }),
    decreases n,
{
    let shown = shown_upto(filters, items, query, n);
    if n > 0 {
        law_filtering_keeps_order(filters, items, query, (n - 1) as nat);
        let front = shown_upto(filters, items, query, (n - 1) as nat);
        assert forall|i: int| 0 <= i < n && #[trigger] filters.admits(
            items[i],
            query,
        ) implies shown.contains(i) by {
            if i < n - 1 {
                let k = choose|k: int| 0 <= k < front.len() && front[k] == i;
                assert(shown[k] == i);
            } else {
                assert(shown[front.len() as int] == i);
            }
        }
    }
}

/// Who reviews sees the requested reviews and nothing else: every row that is shown awaits a review,
/// and stands in the section of those that do.
pub proof fn law_reviewing_shows_requested_reviews(
    page: PullRequestsPage,
    items: Seq<PullRequestListItem>,
    query: Seq<char>,
    k: int,
)
    requires
        page.filters.involvement == InvolvementFilter::Reviewing,
        0 <= k < shown_upto(page.filters, items, query, items.len()).len(),
    ensures
        ({
            let row = shown_upto(page.filters, items, query, items.len())[k];
            &&& 0 <= row < items.len()
            &&& items[row].review == PullRequestReviewState::Required
            &&& page.section_of(items[row]) == Section::ReviewRequested
        }),
{
    law_filtering_keeps_order(page.filters, items, query, items.len());
}

/// Who reviews misses no requested review: a row that awaits one and that all would see is shown.
/// The user's own are asked for by their author, and hide nothing of what is listed.
pub proof fn law_requested_reviews_stay_shown(
    filters: PullRequestFilters,
    items: Seq<PullRequestListItem>,
    query: Seq<char>,
    i: int,
)
    requires
        0 <= i < items.len(),
        shown_upto(
            PullRequestFilters { involvement: InvolvementFilter::All, ..filters },
            items,
            query,
            items.len(),
        ).contains(i),
    ensures
        items[i].review == PullRequestReviewState::Required ==> shown_upto(
            PullRequestFilters { involvement: InvolvementFilter::Reviewing, ..filters },
            items,
            query,
            items.len(),
        ).contains(i),
        shown_upto(
            PullRequestFilters { involvement: InvolvementFilter::Authored, ..filters },
            items,
            query,
            items.len(),
        ).contains(i),
{
    let all = PullRequestFilters { involvement: InvolvementFilter::All, ..filters };
    let reviewing = PullRequestFilters { involvement: InvolvementFilter::Reviewing, ..filters };
    let authored = PullRequestFilters { involvement: InvolvementFilter::Authored, ..filters };
    law_filtering_keeps_order(all, items, query, items.len());
    law_filtering_keeps_order(reviewing, items, query, items.len());
    law_filtering_keeps_order(authored, items, query, items.len());
    let shown = shown_upto(all, items, query, items.len());
    let k = choose|k: int| 0 <= k < shown.len() && shown[k] == i;
    assert(all.admits(items[shown[k]], query));
    if items[i].review == PullRequestReviewState::Required {
        assert(reviewing.admits(items[i], query));
    }
    assert(authored.admits(items[i], query));
}

/// What is shown is what the filters name: the state, the review, the checks, the host and the
/// project that are picked, drafts or none where that is picked, and a text that holds the query.
#[verifier::rlimit(50)]
pub proof fn law_rows_are_what_the_filters_name(
    filters: PullRequestFilters,
    items: Seq<PullRequestListItem>,
    query: Seq<char>,
    k: int,
)
    requires
        0 <= k < shown_upto(filters, items, query, items.len()).len(),
    ensures
        ({
            let row = shown_upto(filters, items, query, items.len())[k];
            let item = items[row];
            &&& 0 <= row < items.len()
            &&& filters.state == StateFilter::Open ==> item.state == ChangeRequestState::Open
            &&& filters.state == StateFilter::Closed ==> item.state == ChangeRequestState::Closed
            &&& filters.state == StateFilter::Merged ==> item.state == ChangeRequestState::Merged
            &&& filters.draft == DraftFilter::DraftsOnly ==> item.draft
            &&& filters.draft == DraftFilter::HideDrafts ==> !item.draft
            &&& filters.review == ReviewFilter::Approved ==> item.review
                == PullRequestReviewState::Approved
            &&& filters.review == ReviewFilter::ChangesRequested ==> item.review
                == PullRequestReviewState::ChangesRequested
            &&& filters.review == ReviewFilter::Required ==> item.review
                == PullRequestReviewState::Required
            &&& filters.review == ReviewFilter::NoReview ==> item.review
                == PullRequestReviewState::NoReview
            &&& filters.checks == ChecksFilter::Passing ==> item.checks
                == PullRequestChecksState::Passing
            &&& filters.checks == ChecksFilter::Failing ==> item.checks
                == PullRequestChecksState::Failing
            &&& filters.checks == ChecksFilter::Pending ==> item.checks
                == PullRequestChecksState::Pending
            &&& filters.host == HostFilter::Github ==> item.provider@ == "github"@
            &&& filters.host == HostFilter::Bitbucket ==> item.provider@ == "bitbucket"@
            &&& filters.project matches ProjectFilter::Repository(name) ==> item.repository@ == name@
            &&& query.len() > 0 ==> {
                ||| found_in(item.title@, query)
                ||| found_in(item.repository@, query)
                ||| found_in(item.provider@, query)
                ||| item.author matches Some(author) && found_in(author@, query)
            }
        }),
{
    law_filtering_keeps_order(filters, items, query, items.len());
    let item = items[shown_upto(filters, items, query, items.len())[k]];
    assert(filters.admits(item, query));
    lemma_found_in(item.title@, query);
    lemma_found_in(item.repository@, query);
    lemma_found_in(item.provider@, query);
    if let Some(author) = item.author {
        lemma_found_in(author@, query);
    }
}

/// The query stands somewhere in the text, if capitals count as small letters.
pub open spec fn found_in(text: Seq<char>, query: Seq<char>) -> bool {
    exists|at: int|
        0 <= at && at + query.len() <= text.len() && #[trigger] ascii_folded(text).subrange(
            at,
            at + query.len(),
        ) == query
}

proof fn lemma_found_in(text: Seq<char>, query: Seq<char>)
    ensures
        mentions(text, query) <==> found_in(text, query),
{
    let lower = ascii_folded(text);
    lemma_first_from(lower, query, 0);
    if mentions(text, query) {
        let at = first_at(lower, query)->0;
        assert(occurs_at(lower, query, at));
        assert(lower.subrange(at, at + query.len()) == query);
    }
    if found_in(text, query) {
        let at = choose|at: int|
            0 <= at && at + query.len() <= text.len() && #[trigger] lower.subrange(
                at,
                at + query.len(),
            ) == query;
        assert(occurs_at(lower, query, at));
    }
}

/// Nothing else is hidden: a pull request that has what each filter names, with a text that holds
/// the query where there is one, is shown.
#[verifier::rlimit(50)]
pub proof fn law_nothing_else_is_hidden(
    filters: PullRequestFilters,
    items: Seq<PullRequestListItem>,
    query: Seq<char>,
    i: int,
)
    requires
        0 <= i < items.len(),
        filters.state == StateFilter::All || (filters.state == StateFilter::Open && items[i].state
            == ChangeRequestState::Open) || (filters.state == StateFilter::Closed && items[i].state
            == ChangeRequestState::Closed) || (filters.state == StateFilter::Merged
            && items[i].state == ChangeRequestState::Merged),
        filters.involvement == InvolvementFilter::Reviewing ==> items[i].review
            == PullRequestReviewState::Required,
        filters.draft == DraftFilter::DraftsOnly ==> items[i].draft,
        filters.draft == DraftFilter::HideDrafts ==> !items[i].draft,
        filters.review == ReviewFilter::All || (filters.review == ReviewFilter::Approved
            && items[i].review == PullRequestReviewState::Approved) || (filters.review
            == ReviewFilter::ChangesRequested && items[i].review
            == PullRequestReviewState::ChangesRequested) || (filters.review
            == ReviewFilter::Required && items[i].review == PullRequestReviewState::Required) || (
        filters.review == ReviewFilter::NoReview && items[i].review
            == PullRequestReviewState::NoReview),
        filters.checks == ChecksFilter::All || (filters.checks == ChecksFilter::Passing
            && items[i].checks == PullRequestChecksState::Passing) || (filters.checks
            == ChecksFilter::Failing && items[i].checks == PullRequestChecksState::Failing) || (
        filters.checks == ChecksFilter::Pending && items[i].checks
            == PullRequestChecksState::Pending),
        filters.host == HostFilter::Github ==> items[i].provider@ == "github"@,
        filters.host == HostFilter::Bitbucket ==> items[i].provider@ == "bitbucket"@,
        filters.project matches ProjectFilter::Repository(name) ==> items[i].repository@ == name@,
        query.len() == 0 || found_in(items[i].title@, query) || found_in(items[i].repository@, query)
            || found_in(items[i].provider@, query) || (items[i].author matches Some(author)
            && found_in(author@, query)),
    ensures
        shown_upto(filters, items, query, items.len()).contains(i),
{
    law_filtering_keeps_order(filters, items, query, items.len());
    let item = items[i];
    lemma_found_in(item.title@, query);
    lemma_found_in(item.repository@, query);
    lemma_found_in(item.provider@, query);
    if let Some(author) = item.author {
        lemma_found_in(author@, query);
    }
    assert(filters.admits(item, query));
}

/// A part of a text finds it, however it is typed: in capitals or small letters, and with blanks
/// around.
pub proof fn law_any_part_of_a_text_finds_it(
    text: Seq<char>,
    at: int,
    upto: int,
    typed: Seq<char>,
)
    requires
        0 <= at <= upto <= text.len(),
        ascii_folded(trim(typed)) == ascii_folded(text.subrange(at, upto)),
    ensures
        found_in(text, query_of(typed)),
{
    let query = query_of(typed);
    assert(ascii_folded(text).subrange(at, upto) =~= ascii_folded(text.subrange(at, upto)));
    assert(query.len() == upto - at);
    assert(ascii_folded(text).subrange(at, at + query.len()) == query);
}

/// A row that awaits a review is in the section of requested reviews, whoever wrote it; otherwise
/// one whose author is an account of its provider, whatever the capitals, is the user's own; and
/// what is listed as authored by the user is, too.
pub proof fn law_rows_stand_where_they_belong(page: PullRequestsPage, item: PullRequestListItem)
    ensures
        item.review == PullRequestReviewState::Required <==> page.section_of(item)
            == Section::ReviewRequested,
        item.review != PullRequestReviewState::Required && page.filters.involvement
            == InvolvementFilter::Authored ==> page.section_of(item) == Section::Authored,
        item.review != PullRequestReviewState::Required && page.filters.involvement
            != InvolvementFilter::Authored ==> (page.section_of(item) == Section::Authored <==> (
        item.author matches Some(author) && exists|k: int|
            0 <= k < page.authored_accounts@.len() && (
            #[trigger] page.authored_accounts@[k]).provider@ == item.provider@ && ascii_folded(
                page.authored_accounts@[k].account@,
            ) == ascii_folded(author@))),
{
}

/// Once the list was asked for again, an earlier answer changes nothing: its request is no longer
/// awaited.
pub proof fn law_superseded_lists_never_land(
    before: PullRequestsPage,
    after: PullRequestsPage,
    made: u64,
    number: u64,
)
    requires
        number < before.next_number,
        numbered(before.next_number, after.next_number, Some(made), after.awaited, before.awaited),
    ensures
        after.awaited != Some(number),
{
}

impl PullRequestsPage {
    /// A page that shows the open pull requests of everyone, everywhere, and what it asks for: it
    /// loads as it opens. Without an engine it asks for nothing, and says so.
    pub fn new(engine_ready: bool) -> (r: (Self, Option<ListRequest>))
        ensures
            r.1 is Some <==> engine_ready,
            r.1 matches Some(request) ==> {
                &&& request.state@ == "open"@
                &&& !request.authored
                &&& request.host is None
                &&& request.project is None
                &&& !request.refresh
                &&& request.with_accounts
            },
            if engine_ready {
                r.0.pull_requests is Loading
            } else {
                r.0.pull_requests matches Loadable::Error(message) && message@
                    == "Engine not connected"@
            },
            r.0.authored_accounts@.len() == 0,
            r.0.accounts_loaded == engine_ready,
            match r.1 {
                Some(request) => request.number == 0 && r.0.awaited == Some(0u64)
                    && r.0.next_number == 1,
                None => r.0.awaited is None && r.0.next_number == 0,
            },
            r.0.selected is None,
            r.0.filters.state == StateFilter::Open,
            r.0.filters.involvement == InvolvementFilter::All,
            r.0.filters.draft == DraftFilter::All,
            r.0.filters.review == ReviewFilter::All,
            r.0.filters.checks == ChecksFilter::All,
            r.0.filters.host == HostFilter::All,
            r.0.filters.project is All,
    {
        let mut page = PullRequestsPage {
            pull_requests: Loadable::Idle,
            authored_accounts: Vec::new(),
            accounts_loaded: false,
            selected: None,
            filters: PullRequestFilters::default(),
            next_number: 0,
            awaited: None,
        };
        let request = page.load(engine_ready, false);
        (page, request)
    }

    /// The same request is awaited.
    pub open spec fn same_requests(self, other: Self) -> bool {
        self.next_number == other.next_number && self.awaited == other.awaited
    }

    /// The request that the filters ask for.
    pub open spec fn asks(self, r: ListRequest, refresh: bool) -> bool {
        &&& r.state@ == match self.filters.state {
            StateFilter::Open => "open"@,
            StateFilter::All => "all"@,
            StateFilter::Closed => "closed"@,
            StateFilter::Merged => "merged"@,
        }
        &&& r.authored == (self.filters.involvement == InvolvementFilter::Authored)
        &&& opt_str(r.host) == match self.filters.host {
            HostFilter::All => None,
            HostFilter::Github => Some("github"@),
            HostFilter::Bitbucket => Some("bitbucket"@),
        }
        &&& opt_text(r.project) == match self.filters.project {
            ProjectFilter::All => None,
            ProjectFilter::Repository(repository) => Some(repository@),
        }
        &&& r.refresh == refresh
        &&& r.with_accounts == !self.accounts_loaded
    }

    /// Ask for the list. The accounts are asked for once. A request that is on its way is
    /// superseded. Without an engine the page says so.
    pub fn load(&mut self, engine_ready: bool, refresh: bool) -> (r: Option<ListRequest>)
        ensures
            r is Some <==> engine_ready,
            r is Some ==> old(self).asks(r->0, refresh),
            numbered(
                old(self).next_number,
                final(self).next_number,
                match r {
                    Some(request) => Some(request.number),
                    None => None,
                },
                final(self).awaited,
                old(self).awaited,
            ),
            final(self).filters == old(self).filters,
            final(self).selected == old(self).selected,
            final(self).authored_accounts == old(self).authored_accounts,
            final(self).accounts_loaded == (old(self).accounts_loaded || engine_ready),
            if engine_ready {
                final(self).pull_requests is Loading
            } else {
                final(self).pull_requests matches Loadable::Error(message) && message@
                    == "Engine not connected"@
            },
    {
        if !engine_ready {
            self.pull_requests = Loadable::Error("Engine not connected".to_owned());
            return None;
        }
        let number = take_number(&mut self.next_number);
        self.awaited = Some(number);
        let request = ListRequest {
            number,
            state: match self.filters.state {
                StateFilter::Open => "open",
                StateFilter::All => "all",
                StateFilter::Closed => "closed",
                StateFilter::Merged => "merged",
            },
            authored: self.filters.involvement == InvolvementFilter::Authored,
            host: match self.filters.host {
                HostFilter::All => None,
                HostFilter::Github => Some("github"),
                HostFilter::Bitbucket => Some("bitbucket"),
            },
            project: match &self.filters.project {
                ProjectFilter::All => None,
                ProjectFilter::Repository(repository) => Some(repository.clone()),
            },
            refresh,
            with_accounts: !self.accounts_loaded,
        };
        self.accounts_loaded = true;
        self.pull_requests = Loadable::Loading;
        Some(request)
    }

    /// Whether the list still holds the selected pull request.
    pub open spec fn keeps_selection(self, items: Seq<PullRequestListItem>) -> bool {
        self.selected matches Some(key) ==> exists|i: int|
            0 <= i < items.len() && key.names(#[trigger] items[i])
    }

    /// The list came, or did not. A selected pull request that is no longer in it is given up,
    /// which is returned as true. The answer to a superseded request is dropped.
    pub fn loaded(
        &mut self,
        number: u64,
        result: Result<Vec<PullRequestListItem>, String>,
    ) -> (deselected: bool)
        ensures
            old(self).awaited != Some(number) ==> !deselected && *final(self) == *old(self),
            final(self).filters == old(self).filters,
            final(self).authored_accounts == old(self).authored_accounts,
            final(self).accounts_loaded == old(self).accounts_loaded,
            final(self).same_requests(*old(self)),
            old(self).awaited == Some(number) ==> match result {
                Ok(items) => {
                    &&& final(self).pull_requests == Loadable::Ready(items)
                    &&& deselected == !old(self).keeps_selection(items@)
                    &&& final(self).selected == if deselected {
                        None
                    } else {
                        old(self).selected
                    }
                },
                Err(error) => {
                    &&& final(self).pull_requests == Loadable::Error(error)
                    &&& !deselected
                    &&& final(self).selected == old(self).selected
                },
            },
    {
        if self.awaited != Some(number) {
            return false;
        }
        match result {
            Err(error) => {
                self.pull_requests = Loadable::Error(error);
                false
            },
            Ok(items) => {
                let keeps = match &self.selected {
                    None => true,
                    Some(key) => {
                        let mut found = false;
                        for i in 0..items.len()
                            invariant
                                found == exists|k: int|
                                    0 <= k < i && key.names(#[trigger] items@[k]),
                        {
                            if key.is_of(&items[i]) {
                                assert(key.names(items@[i as int]));
                                found = true;
                            }
                        }
                        found
                    },
                };
                self.pull_requests = Loadable::Ready(items);
                if !keeps {
                    self.selected = None;
                }
                !keeps
            },
        }
    }

    /// The connections came along with the list: the accounts of those that are signed in. None
    /// came where their call failed. The answer to a superseded request is dropped.
    pub fn accounts_listed(&mut self, number: u64, connections: Vec<SourceControlConnection>)
        ensures
            old(self).awaited != Some(number) ==> *final(self) == *old(self),
            final(self).pull_requests == old(self).pull_requests,
            final(self).selected == old(self).selected,
            final(self).filters == old(self).filters,
            final(self).accounts_loaded == old(self).accounts_loaded,
            final(self).same_requests(*old(self)),
            old(self).awaited == Some(number) ==> account_models(final(self).authored_accounts@)
                == signed_in(connections@, connections@.len()),
    {
        if self.awaited != Some(number) {
            return;
        }
        let ghost all = connections@;
        let mut accounts: Vec<Account> = Vec::new();
        assert(account_models(accounts@) =~= Seq::<(Seq<char>, Seq<char>)>::empty());
        for connection in it: connections
            invariant
                it.seq() == all,
                account_models(accounts@) == signed_in(all, it.index() as nat),
        {
            let ghost model = (connection.provider@, opt_text(connection.account));
            if let Some(account) = connection.account {
                let ghost before = accounts@;
                accounts.push(Account { provider: connection.provider, account });
                assert(account_models(accounts@) =~= account_models(before).push(
                    (model.0, model.1->0),
                ));
            }
        }
        self.authored_accounts = accounts;
    }

    /// Filter by involvement, which the engine does: a change is loaded anew. Where nothing changes
    /// the menu stays open.
    pub fn set_involvement(&mut self, value: InvolvementFilter) -> (r: FilterStep)
        ensures
            r == (FilterStep {
                closes: old(self).filters.involvement != value,
                reloads: old(self).filters.involvement != value,
            }),
            final(self).filters == (PullRequestFilters { involvement: value, ..old(self).filters }),
            final(self).pull_requests == old(self).pull_requests,
            final(self).selected == old(self).selected,
            final(self).authored_accounts == old(self).authored_accounts,
            final(self).accounts_loaded == old(self).accounts_loaded,
            final(self).same_requests(*old(self)),
    {
        if self.filters.involvement == value {
            return FilterStep { closes: false, reloads: false };
        }
        self.filters.involvement = value;
        FilterStep { closes: true, reloads: true }
    }

    /// Filter by state, which the engine does: the list is loaded anew.
    pub fn set_state(&mut self, value: StateFilter) -> (r: FilterStep)
        ensures
            r == (FilterStep { closes: true, reloads: true }),
            final(self).filters == (PullRequestFilters { state: value, ..old(self).filters }),
            final(self).pull_requests == old(self).pull_requests,
            final(self).selected == old(self).selected,
            final(self).authored_accounts == old(self).authored_accounts,
            final(self).accounts_loaded == old(self).accounts_loaded,
            final(self).same_requests(*old(self)),
    {
        self.filters.state = value;
        FilterStep { closes: true, reloads: true }
    }

    /// Filter by draft, which the page does on what is loaded.
    pub fn set_draft(&mut self, value: DraftFilter) -> (r: FilterStep)
        ensures
            r == (FilterStep { closes: true, reloads: false }),
            final(self).filters == (PullRequestFilters { draft: value, ..old(self).filters }),
            final(self).pull_requests == old(self).pull_requests,
            final(self).selected == old(self).selected,
            final(self).authored_accounts == old(self).authored_accounts,
            final(self).accounts_loaded == old(self).accounts_loaded,
            final(self).same_requests(*old(self)),
    {
        self.filters.draft = value;
        FilterStep { closes: true, reloads: false }
    }

    /// Filter by review, which the page does on what is loaded.
    pub fn set_review(&mut self, value: ReviewFilter) -> (r: FilterStep)
        ensures
            r == (FilterStep { closes: true, reloads: false }),
            final(self).filters == (PullRequestFilters { review: value, ..old(self).filters }),
            final(self).pull_requests == old(self).pull_requests,
            final(self).selected == old(self).selected,
            final(self).authored_accounts == old(self).authored_accounts,
            final(self).accounts_loaded == old(self).accounts_loaded,
            final(self).same_requests(*old(self)),
    {
        self.filters.review = value;
        FilterStep { closes: true, reloads: false }
    }

    /// Filter by checks, which the page does on what is loaded.
    pub fn set_checks(&mut self, value: ChecksFilter) -> (r: FilterStep)
        ensures
            r == (FilterStep { closes: true, reloads: false }),
            final(self).filters == (PullRequestFilters { checks: value, ..old(self).filters }),
            final(self).pull_requests == old(self).pull_requests,
            final(self).selected == old(self).selected,
            final(self).authored_accounts == old(self).authored_accounts,
            final(self).accounts_loaded == old(self).accounts_loaded,
            final(self).same_requests(*old(self)),
    {
        self.filters.checks = value;
        FilterStep { closes: true, reloads: false }
    }

    /// Filter by host, which the engine does: the list is loaded anew.
    pub fn set_host(&mut self, value: HostFilter) -> (r: FilterStep)
        ensures
            r == (FilterStep { closes: true, reloads: true }),
            final(self).filters == (PullRequestFilters { host: value, ..old(self).filters }),
            final(self).pull_requests == old(self).pull_requests,
            final(self).selected == old(self).selected,
            final(self).authored_accounts == old(self).authored_accounts,
            final(self).accounts_loaded == old(self).accounts_loaded,
            final(self).same_requests(*old(self)),
    {
        self.filters.host = value;
        FilterStep { closes: true, reloads: true }
    }

    /// Filter by project, which the engine does: the list is loaded anew.
    pub fn set_project(&mut self, value: ProjectFilter) -> (r: FilterStep)
        ensures
            r == (FilterStep { closes: true, reloads: true }),
            final(self).filters == (PullRequestFilters { project: value, ..old(self).filters }),
            final(self).pull_requests == old(self).pull_requests,
            final(self).selected == old(self).selected,
            final(self).authored_accounts == old(self).authored_accounts,
            final(self).accounts_loaded == old(self).accounts_loaded,
            final(self).same_requests(*old(self)),
    {
        self.filters.project = value;
        FilterStep { closes: true, reloads: true }
    }

    /// The rows that are shown for a typed query, by their index in the list.
    pub fn rows(&self, items: &Vec<PullRequestListItem>, typed: &str) -> (r: Vec<usize>)
        ensures
            r@.map_values(|i: usize| i as int) == shown_upto(
                self.filters,
                items@,
                query_of(typed@),
                items@.len(),
            ),
            forall|k: int| 0 <= k < r@.len() ==> #[trigger] r@[k] < items@.len(),
    {
        let query = search_query(typed);
        let mut r: Vec<usize> = Vec::new();
        assert(r@.map_values(|i: usize| i as int) =~= Seq::<int>::empty());
        for i in 0..items.len()
            invariant
                query@ == query_of(typed@),
                r@.map_values(|i: usize| i as int) == shown_upto(
                    self.filters,
                    items@,
                    query_of(typed@),
                    i as nat,
                ),
                forall|k: int| 0 <= k < r@.len() ==> #[trigger] r@[k] < i,
        {
            if self.filters.matches_filter(&items[i], query.as_slice()) {
                let ghost before = r@;
                r.push(i);
                assert(r@.map_values(|i: usize| i as int) =~= before.map_values(
                    |i: usize| i as int,
                ).push(i as int));
            }
        }
        r
    }

    /// Whether a pull request counts as the user's own.
    pub open spec fn authored(self, item: PullRequestListItem) -> bool {
        self.filters.involvement == InvolvementFilter::Authored || (opt_text(
            item.author,
        ) matches Some(author) && owns(self.authored_accounts@, item.provider@, author))
    }

    pub fn is_authored(&self, item: &PullRequestListItem) -> (r: bool)
        ensures
            r == self.authored(*item),
    {
        if self.filters.involvement == InvolvementFilter::Authored {
            return true;
        }
        let author = match &item.author {
            Some(author) => author,
            None => {
                return false;
            },
        };
        for i in 0..self.authored_accounts.len()
            invariant
                opt_text(item.author) == Some(author@),
                forall|k: int|
                    0 <= k < i ==> (#[trigger] self.authored_accounts@[k]).provider@
                        != item.provider@ || ascii_folded(author@) != ascii_folded(
                        self.authored_accounts@[k].account@,
                    ),
        {
            let account = &self.authored_accounts[i];
            if same_str(account.provider.as_str(), item.provider.as_str()) && same_ignoring_case(
                author.as_str(),
                account.account.as_str(),
            ) {
                assert(self.authored_accounts@[i as int].provider@ == item.provider@);
                return true;
            }
        }
        false
    }

    /// The section of a row: every row stands in exactly one. Requested reviews come first,
    /// whoever wrote them.
    pub open spec fn section_of(self, item: PullRequestListItem) -> Section {
        if item.review == PullRequestReviewState::Required {
            Section::ReviewRequested
        } else if self.authored(item) {
            Section::Authored
        } else {
            Section::Others
        }
    }

    pub fn section(&self, item: &PullRequestListItem) -> (r: Section)
        ensures
            r == self.section_of(*item),
    {
        if item.review == PullRequestReviewState::Required {
            Section::ReviewRequested
        } else if self.is_authored(item) {
            Section::Authored
        } else {
            Section::Others
        }
    }

    /// Select a row.
    pub fn select(&mut self, item: &PullRequestListItem)
        ensures
            final(self).selected matches Some(key) && key.names(*item),
            final(self).pull_requests == old(self).pull_requests,
            final(self).filters == old(self).filters,
            final(self).authored_accounts == old(self).authored_accounts,
            final(self).accounts_loaded == old(self).accounts_loaded,
            final(self).same_requests(*old(self)),
    {
        self.selected = Some(PullRequestKey::of(item));
    }

    /// Take over a selection that was made elsewhere, or that there is none.
    pub fn set_selection_silently(&mut self, item: Option<&PullRequestListItem>)
        ensures
            match item {
                Some(item) => final(self).selected matches Some(key) && key.names(*item),
                None => final(self).selected is None,
            },
            final(self).pull_requests == old(self).pull_requests,
            final(self).filters == old(self).filters,
            final(self).authored_accounts == old(self).authored_accounts,
            final(self).accounts_loaded == old(self).accounts_loaded,
            final(self).same_requests(*old(self)),
    {
        self.selected = match item {
            Some(item) => Some(PullRequestKey::of(item)),
            None => None,
        };
    }

    pub fn is_selected(&self, item: &PullRequestListItem) -> (r: bool)
        ensures
            r == (self.selected matches Some(key) && key.names(*item)),
    {
        match &self.selected {
            Some(key) => key.is_of(item),
            None => false,
        }
    }

    /// What stands where the rows would be, while there are none to show.
    pub fn notice(&self, shown: usize) -> (r: Option<String>)
        ensures
            opt_text(r) == match self.pull_requests {
                Loadable::Idle | Loadable::Loading => Some("Loading pull requests…"@),
                Loadable::Error(message) => Some("Could not load pull requests: "@ + message@),
                Loadable::Ready(_) => if shown == 0 {
                    Some("No pull requests match these filters"@)
                } else {
                    None
                },
            },
    {
        match &self.pull_requests {
            Loadable::Idle => Some("Loading pull requests…".to_owned()),
            Loadable::Loading => Some("Loading pull requests…".to_owned()),
            Loadable::Error(message) => {
                let mut text = "Could not load pull requests: ".to_owned();
                text.push_str(message.as_str());
                Some(text)
            },
            Loadable::Ready(_) => if shown == 0 {
                Some("No pull requests match these filters".to_owned())
            } else {
                None
            },
        }
    }

    /// The repositories that can be filtered by.
    pub fn project_options(&self) -> (r: Vec<String>)
        ensures
            ascending(texts(r@)),
            match self.pull_requests {
                Loadable::Ready(items) => forall|name: Seq<char>| #[trigger]
                    texts(r@).contains(name) <==> has_repository(items@, name),
                _ => r@.len() == 0,
            },
    {
        match &self.pull_requests {
            Loadable::Ready(items) => {
                let mut r: Vec<String> = Vec::new();
                for i in 0..items.len()
                    invariant
                        ascending(texts(r@)),
                        forall|name: Seq<char>| #[trigger]
                            texts(r@).contains(name) <==> has_repository(
                                items@.take(i as int),
                                name,
                            ),
                {
                    let ghost before = r@;
                    insert_name(&mut r, items[i].repository.as_str());
                    assert forall|name: Seq<char>| #[trigger] texts(r@).contains(
                        name,
                    ) <==> has_repository(items@.take(i + 1), name) by {
                        lemma_has_repository(items@, i as int, name);
                        let _ = texts(before).contains(name);
                    }
                }
                assert(items@.take(items@.len() as int) =~= items@);
                r
            },
            _ => Vec::new(),
        }
    }
}

pub open spec fn account_models(accounts: Seq<Account>) -> Seq<(Seq<char>, Seq<char>)> {
    accounts.map_values(|account: Account| (account.provider@, account.account@))
}

/// The accounts of the first `n` connections, where there is one.
pub open spec fn signed_in(connections: Seq<SourceControlConnection>, n: nat) -> Seq<
    (Seq<char>, Seq<char>),
>
    decreases n,
{
    if n == 0 {
        Seq::empty()
    } else {
        let front = signed_in(connections, (n - 1) as nat);
        match opt_text(connections[n - 1].account) {
            Some(account) => front.push((connections[n - 1].provider@, account)),
            None => front,
        }
    }
}

/// Names in strictly ascending order: sorted, and none twice.
pub open spec fn ascending(names: Seq<Seq<char>>) -> bool {
    forall|i: int, j: int|
        0 <= i < j < names.len() ==> before(#[trigger] names[i], #[trigger] names[j])
}

/// Whether some item is of this repository.
pub open spec fn has_repository(items: Seq<PullRequestListItem>, name: Seq<char>) -> bool {
    exists|i: int| 0 <= i < items.len() && (#[trigger] items[i]).repository@ == name
}

proof fn lemma_has_repository(items: Seq<PullRequestListItem>, i: int, name: Seq<char>)
    requires
        0 <= i < items.len(),
    ensures
        has_repository(items.take(i + 1), name) <==> has_repository(items.take(i), name)
            || items[i].repository@ == name,
{
    let more = items.take(i + 1);
    let less = items.take(i);
    if has_repository(more, name) {
        let k = choose|k: int| 0 <= k < more.len() && (#[trigger] more[k]).repository@ == name;
        if k < i {
            assert(less[k].repository@ == name);
        }
    }
    if has_repository(less, name) {
        let k = choose|k: int| 0 <= k < less.len() && (#[trigger] less[k]).repository@ == name;
        assert(more[k].repository@ == name);
    }
    if items[i].repository@ == name {
        assert(more[i].repository@ == name);
    }
}

/// Put a name into its place, unless it is there.
fn insert_name(names: &mut Vec<String>, name: &str)
    requires
        ascending(texts(old(names)@)),
    ensures
        ascending(texts(final(names)@)),
        forall|other: Seq<char>| #[trigger]
            texts(final(names)@).contains(other) <==> texts(old(names)@).contains(other) || other
                == name@,
{
    let ghost start = texts(names@);
    let mut at: usize = 0;
    while at < names.len() && comes_before(names[at].as_str(), name)
        invariant
            at <= names@.len(),
            start == texts(names@),
            ascending(start),
            forall|k: int| 0 <= k < at ==> before(#[trigger] start[k], name@),
        decreases names@.len() - at,
    {
        assert(start[at as int] == names@[at as int]@);
        at += 1;
    }
    if at < names.len() && same_str(names[at].as_str(), name) {
        assert(start[at as int] == name@);
        return;
    }
    proof {
        if at < start.len() {
            assert(start[at as int] == names@[at as int]@);
            lemma_before_total(start[at as int], name@);
            assert forall|k: int| at < k < start.len() implies before(
                name@,
                #[trigger] start[k],
            ) by {
                lemma_before_chain(name@, start[at as int], start[k]);
            }
        }
    }
    names.insert(at, name.to_owned());
    proof {
        let after = texts(names@);
        assert(after =~= start.insert(at as int, name@));
        assert forall|other: Seq<char>| #[trigger] after.contains(other) <==> start.contains(other)
            || other == name@ by {
            if after.contains(other) {
                let k = choose|k: int| 0 <= k < after.len() && after[k] == other;
                if k < at {
                    assert(start[k] == other);
                } else if k > at {
                    assert(start[k - 1] == other);
                }
            }
            if start.contains(other) {
                let k = choose|k: int| 0 <= k < start.len() && start[k] == other;
                if k < at {
                    assert(after[k] == other);
                } else {
                    assert(after[k + 1] == other);
                }
            }
            if other == name@ {
                assert(after[at as int] == other);
            }
        }
        assert forall|i: int, j: int| 0 <= i < j < after.len() implies before(
            #[trigger] after[i],
            #[trigger] after[j],
        ) by {
            let x = if i < at {
                start[i]
            } else {
                start[i - 1]
            };
            let y = if j < at {
                start[j]
            } else {
                start[j - 1]
            };
            if i == at {
                assert(after[j] == start[j - 1]);
            } else if j == at {
                assert(after[i] == start[i]);
            } else {
                assert(after[i] == x && after[j] == y);
            }
        }
    }
}

// ---------------------------------------------------------------------------
// What a pull request says
// ---------------------------------------------------------------------------

/// The author, after what stands before them.
pub open spec fn author_text(author: Option<Seq<char>>) -> Seq<char> {
    match author {
        Some(author) => " · "@ + author,
        None => Seq::empty(),
    }
}

fn push_author(s: &mut String, author: &Option<String>)
    ensures
        final(s)@ == old(s)@ + author_text(opt_text(*author)),
{
    let ghost start = s@;
    if let Some(author) = author {
        s.push_str(" · ");
        s.push_str(author.as_str());
    }
    assert(s@ =~= start + author_text(opt_text(*author)));
}

/// The color of a word, by what it means.
#[derive(Debug, Clone, Copy, PartialEq, Eq, Structural)]
pub enum Tone {
    Success,
    Danger,
    Warning,
    Accent,
    Muted,
}

/// A word with its color.
#[derive(Debug, Clone, Copy, PartialEq, Eq)]
pub struct Badge {
    pub label: &'static str,
    pub tone: Tone,
}

pub open spec fn badge_model(badge: Badge) -> (Seq<char>, Tone) {
    (badge.label@, badge.tone)
}

pub open spec fn badge_models(badges: Seq<Badge>) -> Seq<(Seq<char>, Tone)> {
    badges.map_values(|badge: Badge| badge_model(badge))
}

/// The icon that stands for where a pull request is.
#[derive(Debug, Clone, Copy, PartialEq, Eq, Structural)]
pub enum ProviderIcon {
    Github,
    Bitbucket,
    Branch,
    PullRequest,
}

/// An icon with its color; a provider's own mark has its own.
#[derive(Debug, Clone, Copy, PartialEq, Eq, Structural)]
pub struct ProviderMark {
    pub icon: ProviderIcon,
    pub tone: Option<Tone>,
}

/// The mark of a provider, or `other` for one without a mark.
pub open spec fn mark_of(provider: Seq<char>, other: ProviderMark) -> ProviderMark {
    if provider == "github"@ {
        ProviderMark { icon: ProviderIcon::Github, tone: None }
    } else if provider == "bitbucket"@ {
        ProviderMark { icon: ProviderIcon::Bitbucket, tone: None }
    } else {
        other
    }
}

fn provider_mark(provider: &str, other: ProviderMark) -> (r: ProviderMark)
    ensures
        r == mark_of(provider@, other),
{
    if same_str(provider, "github") {
        ProviderMark { icon: ProviderIcon::Github, tone: None }
    } else if same_str(provider, "bitbucket") {
        ProviderMark { icon: ProviderIcon::Bitbucket, tone: None }
    } else {
        other
    }
}

/// The second line of a row.
pub open spec fn row_line(item: PullRequestListItem) -> Seq<char> {
    seq!['#'] + decimal(item.number as nat) + " · "@ + item.repository@ + author_text(
        opt_text(item.author),
    ) + " · "@ + item.head_ref@ + " → "@ + item.base_ref@
}

impl PullRequestListItem {
    /// The second line of a row.
    pub fn row_text(&self) -> (r: String)
        ensures
            r@ == row_line(*self),
    {
        let mut r = String::new();
        r.push('#');
        push_decimal(&mut r, self.number);
        r.push_str(" · ");
        r.push_str(self.repository.as_str());
        push_author(&mut r, &self.author);
        r.push_str(" · ");
        r.push_str(self.head_ref.as_str());
        r.push_str(" → ");
        r.push_str(self.base_ref.as_str());
        assert(r@ =~= row_line(*self));
        r
    }

    pub open spec fn state_badge_of(self) -> (Seq<char>, Tone) {
        match self.state {
            ChangeRequestState::Open => ("Open"@, Tone::Success),
            ChangeRequestState::Merged => ("Merged"@, Tone::Accent),
            ChangeRequestState::Closed => ("Closed"@, Tone::Muted),
        }
    }

    pub fn state_badge(&self) -> (r: Badge)
        ensures
            badge_model(r) == self.state_badge_of(),
    {
        match self.state {
            ChangeRequestState::Open => Badge { label: "Open", tone: Tone::Success },
            ChangeRequestState::Merged => Badge { label: "Merged", tone: Tone::Accent },
            ChangeRequestState::Closed => Badge { label: "Closed", tone: Tone::Muted },
        }
    }

    /// The icon of a row: the provider's mark, or a branch in the color of the state.
    pub fn row_mark(&self) -> (r: ProviderMark)
        ensures
            r == mark_of(
                self.provider@,
                ProviderMark { icon: ProviderIcon::Branch, tone: Some(self.state_badge_of().1) },
            ),
    {
        let tone = Some(self.state_badge().tone);
        provider_mark(
            self.provider.as_str(),
            ProviderMark { icon: ProviderIcon::Branch, tone },
        )
    }

    /// The badges of a row: those that say something.
    pub open spec fn badges_of(self) -> Seq<(Seq<char>, Tone)> {
        (if self.draft {
            seq![("Draft"@, Tone::Muted)]
        } else {
            Seq::empty()
        }) + (match self.review {
            PullRequestReviewState::Approved => seq![("Approved"@, Tone::Success)],
            PullRequestReviewState::ChangesRequested => seq![("Changes requested"@, Tone::Danger)],
            PullRequestReviewState::Required => seq![("Review required"@, Tone::Warning)],
            PullRequestReviewState::NoReview => Seq::empty(),
        }) + (match self.checks {
            PullRequestChecksState::Passing => seq![("Passing"@, Tone::Success)],
            PullRequestChecksState::Failing => seq![("Failing"@, Tone::Danger)],
            PullRequestChecksState::Pending => seq![("Pending"@, Tone::Warning)],
            PullRequestChecksState::NoChecks => Seq::empty(),
        })
    }

    pub fn badges(&self) -> (r: Vec<Badge>)
        ensures
            badge_models(r@) == self.badges_of(),
    {
        let mut r: Vec<Badge> = Vec::new();
        if self.draft {
            r.push(Badge { label: "Draft", tone: Tone::Muted });
        }
        match self.review {
            PullRequestReviewState::Approved => r.push(
                Badge { label: "Approved", tone: Tone::Success },
            ),
            PullRequestReviewState::ChangesRequested => r.push(
                Badge { label: "Changes requested", tone: Tone::Danger },
            ),
            PullRequestReviewState::Required => r.push(
                Badge { label: "Review required", tone: Tone::Warning },
            ),
            PullRequestReviewState::NoReview => {},
        }
        match self.checks {
            PullRequestChecksState::Passing => r.push(
                Badge { label: "Passing", tone: Tone::Success },
            ),
            PullRequestChecksState::Failing => r.push(
                Badge { label: "Failing", tone: Tone::Danger },
            ),
            PullRequestChecksState::Pending => r.push(
                Badge { label: "Pending", tone: Tone::Warning },
            ),
            PullRequestChecksState::NoChecks => {},
        }
        assert(badge_models(r@) =~= self.badges_of());
        r
    }

    pub open spec fn provider_text(self) -> Seq<char> {
        if self.provider@ == "github"@ {
            "GitHub"@
        } else {
            "Bitbucket"@
        }
    }

    pub open spec fn description_text(self) -> Seq<char> {
        match opt_text(self.description) {
            Some(description) => if trim(description).len() > 0 {
                description
            } else {
                "No description provided."@
            },
            None => "No description provided."@,
        }
    }

    /// What the detail surface says.
    pub fn detail(&self) -> (r: PullRequestDetail)
        ensures
            r.open_label@ == "Open in "@ + self.provider_text(),
            r.reference@ == self.repository@ + "  #"@ + decimal(self.number as nat),
            r.provider_line@ == self.provider_text() + author_text(opt_text(self.author)),
            r.refs@ == self.base_ref@ + "  ←  "@ + self.head_ref@,
            r.mark == mark_of(
                self.provider@,
                ProviderMark { icon: ProviderIcon::PullRequest, tone: Some(Tone::Muted) },
            ),
            badge_model(r.state) == self.state_badge_of(),
            badge_model(r.review) == match self.review {
                PullRequestReviewState::Approved => ("Approved"@, Tone::Success),
                PullRequestReviewState::ChangesRequested => ("Changes requested"@, Tone::Danger),
                PullRequestReviewState::Required => ("Review required"@, Tone::Warning),
                PullRequestReviewState::NoReview => ("No review"@, Tone::Muted),
            },
            badge_model(r.checks) == match self.checks {
                PullRequestChecksState::Passing => ("All checks passed"@, Tone::Success),
                PullRequestChecksState::Failing => ("Checks failing"@, Tone::Danger),
                PullRequestChecksState::Pending => ("Checks pending"@, Tone::Warning),
                PullRequestChecksState::NoChecks => ("Checks unavailable"@, Tone::Muted),
            },
            r.comments@ == "Comments  0"@,
            r.files@ == decimal(self.changed_files as nat) + " files"@,
            r.lines@ == seq!['+'] + decimal(self.additions as nat) + " -"@ + decimal(
                self.deletions as nat,
            ),
            r.description@ == self.description_text(),
    {
        let provider = if same_str(self.provider.as_str(), "github") {
            "GitHub"
        } else {
            "Bitbucket"
        };
        let mut open_label = "Open in ".to_owned();
        open_label.push_str(provider);
        let mut reference = self.repository.clone();
        reference.push_str("  #");
        push_decimal(&mut reference, self.number);
        let mut provider_line = provider.to_owned();
        push_author(&mut provider_line, &self.author);
        let mark = provider_mark(
            self.provider.as_str(),
            ProviderMark { icon: ProviderIcon::PullRequest, tone: Some(Tone::Muted) },
        );
        let mut refs = self.base_ref.clone();
        refs.push_str("  ←  ");
        refs.push_str(self.head_ref.as_str());
        let mut files = String::new();
        push_decimal(&mut files, self.changed_files);
        files.push_str(" files");
        assert(files@ =~= decimal(self.changed_files as nat) + " files"@);
        let mut lines = String::new();
        lines.push('+');
        push_decimal(&mut lines, self.additions);
        lines.push_str(" -");
        push_decimal(&mut lines, self.deletions);
        assert(lines@ =~= seq!['+'] + decimal(self.additions as nat) + " -"@ + decimal(
            self.deletions as nat,
        ));
        let description = match &self.description {
            Some(description) => {
                let chars = chars_of(description.as_str());
                if trimmed(chars.as_slice()).len() > 0 {
                    description.clone()
                } else {
                    "No description provided.".to_owned()
                }
            },
            None => "No description provided.".to_owned(),
        };
        PullRequestDetail {
            open_label,
            reference,
            provider_line,
            refs,
            mark,
            state: self.state_badge(),
            review: match self.review {
                PullRequestReviewState::Approved => Badge {
                    label: "Approved",
                    tone: Tone::Success,
                },
                PullRequestReviewState::ChangesRequested => Badge {
                    label: "Changes requested",
                    tone: Tone::Danger,
                },
                PullRequestReviewState::Required => Badge {
                    label: "Review required",
                    tone: Tone::Warning,
                },
                PullRequestReviewState::NoReview => Badge { label: "No review", tone: Tone::Muted },
            },
            checks: match self.checks {
                PullRequestChecksState::Passing => Badge {
                    label: "All checks passed",
                    tone: Tone::Success,
                },
                PullRequestChecksState::Failing => Badge {
                    label: "Checks failing",
                    tone: Tone::Danger,
                },
                PullRequestChecksState::Pending => Badge {
                    label: "Checks pending",
                    tone: Tone::Warning,
                },
                PullRequestChecksState::NoChecks => Badge {
                    label: "Checks unavailable",
                    tone: Tone::Muted,
                },
            },
            comments: "Comments  0",
            files,
            lines,
            description,
        }
    }
}

/// What the detail surface of a pull request says.
#[derive(Debug, PartialEq, Eq)]
pub struct PullRequestDetail {
    pub open_label: String,
    pub reference: String,
    pub provider_line: String,
    pub refs: String,
    pub mark: ProviderMark,
    pub state: Badge,
    pub review: Badge,
    pub checks: Badge,
    /// Comments are not loaded.
    pub comments: &'static str,
    pub files: String,
    pub lines: String,
    pub description: String,
}

/// The engine is asked for what the page would show: a request that asks for one state, host or
/// project asks for the one that is picked, and only the user's own are asked for by their author.
#[verifier::rlimit(50)]
pub proof fn law_the_engine_is_asked_for_what_is_picked(
    page: PullRequestsPage,
    r: ListRequest,
    refresh: bool,
)
    requires
        page.asks(r, refresh),
    ensures
        r.state@ == "open"@ <==> page.filters.state == StateFilter::Open,
        r.state@ == "closed"@ <==> page.filters.state == StateFilter::Closed,
        r.state@ == "merged"@ <==> page.filters.state == StateFilter::Merged,
        r.state@ == "all"@ <==> page.filters.state == StateFilter::All,
        r.authored <==> page.filters.involvement == InvolvementFilter::Authored,
        r.host is None <==> page.filters.host == HostFilter::All,
        r.host is Some && (r.host->0)@ == "github"@ <==> page.filters.host == HostFilter::Github,
        r.host is Some && (r.host->0)@ == "bitbucket"@ <==> page.filters.host
            == HostFilter::Bitbucket,
        r.project is None <==> page.filters.project is All,
        page.filters.project matches ProjectFilter::Repository(name) ==> r.project is Some && (
        r.project->0)@ == name@,
{
    reveal_strlit("open");
    reveal_strlit("closed");
    reveal_strlit("merged");
    reveal_strlit("all");
    reveal_strlit("github");
    reveal_strlit("bitbucket");
    assert("open"@[0] == 'o' && "closed"@[0] == 'c' && "merged"@[0] == 'm' && "all"@[0] == 'a');
    assert("github"@[0] == 'g' && "bitbucket"@[0] == 'b');
}

/// The accounts are those of the connections that are signed in, in their order.
pub proof fn law_accounts_are_those_signed_in(
    connections: Seq<SourceControlConnection>,
    n: nat,
    i: int,
)
    requires
        n <= connections.len(),
        0 <= i < n,
    ensures
        ({
            let at = signed_in(connections, i as nat).len() as int;
            match connections[i].account {
                Some(account) => at < signed_in(connections, n).len() && signed_in(
                    connections,
                    n,
                )[at] == (connections[i].provider@, account@) && signed_in(
                    connections,
                    (i + 1) as nat,
                ).len() == at + 1,
                None => signed_in(connections, (i + 1) as nat).len() == at,
            }
        }),
    decreases n,
{
    if i < n - 1 {
        law_accounts_are_those_signed_in(connections, (n - 1) as nat, i);
    }
}

/// A row's badges say whether it is a draft, what its review came to and how its checks stand, in
/// this order, each only where there is something to say.
pub proof fn law_badges_say_how_it_stands(item: PullRequestListItem)
    ensures
        ({
            let badges = item.badges_of();
            let draft: int = if item.draft {
                1
            } else {
                0
            };
            let review: int = if item.review == PullRequestReviewState::NoReview {
                0
            } else {
                1
            };
            let checks: int = if item.checks == PullRequestChecksState::NoChecks {
                0
            } else {
                1
            };
            &&& badges.len() == draft + review + checks
            &&& item.draft ==> badges[0].0 == "Draft"@
            &&& item.review == PullRequestReviewState::Approved ==> badges[draft].0 == "Approved"@
            &&& item.review == PullRequestReviewState::ChangesRequested ==> badges[draft].0
                == "Changes requested"@
            &&& item.review == PullRequestReviewState::Required ==> badges[draft].0
                == "Review required"@
            &&& item.checks == PullRequestChecksState::Passing ==> badges.last().0 == "Passing"@
            &&& item.checks == PullRequestChecksState::Failing ==> badges.last().0 == "Failing"@
            &&& item.checks == PullRequestChecksState::Pending ==> badges.last().0 == "Pending"@
        }),
{
}

/// The projects are offered in their order, and none of them twice.
pub proof fn law_projects_are_offered_once(names: Seq<Seq<char>>, i: int, j: int)
    requires
        ascending(names),
        0 <= i < j < names.len(),
    ensures
        names[i] != names[j],
        before(names[i], names[j]),
{
    lemma_before_total(names[i], names[j]);
}

/// A key is of the pull request that has its provider, its repository and its number, and of no
/// other; a selection is kept while such a one is in the list.
pub proof fn law_keys_name_one_pull_request(
    page: PullRequestsPage,
    key: PullRequestKey,
    items: Seq<PullRequestListItem>,
    i: int,
)
    requires
        0 <= i < items.len(),
    ensures
        key.names(items[i]) <==> key.provider@ == items[i].provider@ && key.repository@
            == items[i].repository@ && key.number == items[i].number,
        page.selected is None ==> page.keeps_selection(items),
        page.selected == Some(key) && key.names(items[i]) ==> page.keeps_selection(items),
        page.selected == Some(key) && (forall|j: int|
            0 <= j < items.len() ==> !key.names(#[trigger] items[j])) ==> !page.keeps_selection(
            items,
        ),
{
}

/// A pull request is shown with its state, its provider and its description; a blank description
/// counts as none.
pub proof fn law_details_say_what_is_listed(item: PullRequestListItem)
    ensures
        item.state == ChangeRequestState::Open ==> item.state_badge_of().0 == "Open"@,
        item.state == ChangeRequestState::Merged ==> item.state_badge_of().0 == "Merged"@,
        item.state == ChangeRequestState::Closed ==> item.state_badge_of().0 == "Closed"@,
        item.provider@ == "github"@ ==> item.provider_text() == "GitHub"@,
        item.provider@ == "bitbucket"@ ==> item.provider_text() == "Bitbucket"@,
        item.description is Some && trim((item.description->0)@).len() > 0
            ==> item.description_text() == (item.description->0)@,
        item.description is None || trim((item.description->0)@).len() == 0
            ==> item.description_text() == "No description provided."@,
{
    reveal_strlit("github");
    reveal_strlit("bitbucket");
    assert("github"@[0] == 'g' && "bitbucket"@[0] == 'b');
}

/// A row names the pull request's number, its repository, its author where one is known, and the
/// branches it leads from and to, in this order.
pub proof fn law_rows_name_the_pull_request(item: PullRequestListItem)
    ensures
        item.author is None ==> row_line(item) == seq!['#'] + decimal(item.number as nat) + " · "@
            + item.repository@ + " · "@ + item.head_ref@ + " → "@ + item.base_ref@,
        item.author is Some ==> row_line(item) == seq!['#'] + decimal(item.number as nat) + " · "@
            + item.repository@ + (" · "@ + (item.author->0)@) + " · "@ + item.head_ref@ + " → "@
            + item.base_ref@,
{
    if item.author is None {
        let head = seq!['#'] + decimal(item.number as nat) + " · "@ + item.repository@;
        assert(head + Seq::<char>::empty() =~= head);
    }
}

} // verus!
