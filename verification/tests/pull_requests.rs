use zeron::pull_request_menu::{FilterChoice, FilterOption};
use zeron::pull_requests::{
    Badge, ChangeRequestState, ChecksFilter, DraftFilter, FilterStep, HostFilter,
    InvolvementFilter, ListRequest, ProjectFilter, ProviderIcon, ProviderMark,
    PullRequestChecksState, PullRequestListItem, PullRequestReviewState, PullRequestsPage,
    ReviewFilter, Section, SourceControlConnection, StateFilter, Tone,
};

/// The number of the request that a page makes as it opens.
const NUMBER: u64 = 0;

fn item(number: u64, title: &str) -> PullRequestListItem {
    PullRequestListItem {
        provider: "github".into(),
        repository: "zeron/app".into(),
        number,
        title: title.into(),
        description: None,
        author: Some("Ada".into()),
        url: String::new(),
        head_ref: "topic".into(),
        base_ref: "main".into(),
        state: ChangeRequestState::Open,
        draft: false,
        review: PullRequestReviewState::NoReview,
        checks: PullRequestChecksState::NoChecks,
        changed_files: 3,
        additions: 10,
        deletions: 4,
    }
}

#[test]
fn filters_and_the_query_keep_the_order() {
    let (mut page, _) = PullRequestsPage::new(true);
    let mut merged = item(2, "Merged work");
    merged.state = ChangeRequestState::Merged;
    let mut draft = item(3, "Fix the graph");
    draft.draft = true;
    let mut approved = item(4, "Fix colors");
    approved.review = PullRequestReviewState::Approved;
    approved.checks = PullRequestChecksState::Failing;
    approved.provider = "bitbucket".into();
    let items = vec![item(1, "Add tests"), merged, draft, approved];
    assert_eq!(page.rows(&items, ""), [0, 2, 3]);
    assert_eq!(page.rows(&items, "  FIX "), [2, 3]);
    assert_eq!(page.rows(&items, "ada"), [0, 2, 3]);
    assert_eq!(page.rows(&items, "bitbucket"), [3]);
    assert!(!page.set_draft(DraftFilter::HideDrafts).reloads);
    assert_eq!(page.rows(&items, "fix"), [3]);
    page.set_draft(DraftFilter::DraftsOnly);
    assert_eq!(page.rows(&items, ""), [2]);
    page.set_draft(DraftFilter::All);
    page.set_review(ReviewFilter::Approved);
    assert_eq!(page.rows(&items, ""), [3]);
    page.set_review(ReviewFilter::NoReview);
    assert_eq!(page.rows(&items, ""), [0, 2]);
    page.set_review(ReviewFilter::All);
    page.set_checks(ChecksFilter::Failing);
    assert_eq!(page.rows(&items, ""), [3]);
    page.set_checks(ChecksFilter::All);
    assert!(page.set_host(HostFilter::Bitbucket).reloads);
    assert_eq!(page.rows(&items, ""), [3]);
    page.set_host(HostFilter::All);
    assert!(page.set_state(StateFilter::Merged).reloads);
    assert_eq!(page.rows(&items, ""), [1]);
    page.set_state(StateFilter::All);
    page.set_project(ProjectFilter::Repository("zeron/other".into()));
    assert!(page.rows(&items, "").is_empty());
}

#[test]
fn a_page_loads_as_it_opens() {
    let (mut page, request) = PullRequestsPage::new(true);
    assert_eq!(
        request,
        Some(ListRequest {
            number: NUMBER,
            state: "open",
            authored: false,
            host: None,
            project: None,
            refresh: false,
            with_accounts: true,
        })
    );
    assert_eq!(page.notice(0).as_deref(), Some("Loading pull requests…"));
    assert!(!page.load(true, true).unwrap().with_accounts);
    let (page, request) = PullRequestsPage::new(false);
    assert_eq!(request, None);
    assert_eq!(
        page.notice(0).as_deref(),
        Some("Could not load pull requests: Engine not connected")
    );
}

#[test]
fn the_list_is_asked_for_with_its_filters() {
    let (mut page, request) = PullRequestsPage::new(false);
    assert_eq!(request, None);
    assert_eq!(page.load(false, false), None);
    assert_eq!(
        page.notice(0).as_deref(),
        Some("Could not load pull requests: Engine not connected")
    );
    assert!(page.set_involvement(InvolvementFilter::Authored).reloads);
    assert!(!page.set_involvement(InvolvementFilter::Authored).reloads);
    page.set_host(HostFilter::Github);
    assert_eq!(
        page.load(true, true),
        Some(ListRequest {
            number: 0,
            state: "open",
            authored: true,
            host: Some("github"),
            project: None,
            refresh: true,
            with_accounts: true,
        })
    );
    assert_eq!(page.notice(0).as_deref(), Some("Loading pull requests…"));
    let again = page.load(true, false).unwrap();
    assert!(!again.with_accounts);
    // The first request is superseded: neither its list nor its accounts land.
    assert!(!page.loaded(NUMBER, Ok(vec![item(1, "stale")])));
    page.accounts_listed(NUMBER, vec![SourceControlConnection {
        provider: "github".into(),
        account: Some("ada".into()),
    }]);
    assert!(page.authored_accounts.is_empty());
    assert_eq!(page.notice(0).as_deref(), Some("Loading pull requests…"));
    page.loaded(again.number, Ok(Vec::new()));
    assert_eq!(page.notice(0).as_deref(), Some("No pull requests match these filters"));
    assert_eq!(page.notice(1), None);
}

#[test]
fn a_selection_that_left_the_list_is_given_up() {
    let (mut page, _) = PullRequestsPage::new(true);
    page.select(&item(1, "x"));
    assert!(page.is_selected(&item(1, "renamed")));
    assert!(!page.loaded(NUMBER, Ok(vec![item(1, "x"), item(2, "y")])));
    assert!(!page.loaded(NUMBER, Err("offline".into())));
    assert!(page.is_selected(&item(1, "x")));
    assert!(page.loaded(NUMBER, Ok(vec![item(2, "y")])));
    assert!(page.selected.is_none());
    page.set_selection_silently(Some(&item(2, "y")));
    assert!(page.is_selected(&item(2, "y")));
    page.set_selection_silently(None);
    assert!(page.selected.is_none());
}

#[test]
fn rows_stand_in_one_section() {
    let (mut page, _) = PullRequestsPage::new(true);
    page.accounts_listed(NUMBER, vec![
        SourceControlConnection { provider: "github".into(), account: Some("ada".into()) },
        SourceControlConnection { provider: "bitbucket".into(), account: None },
    ]);
    assert_eq!(page.authored_accounts.len(), 1);
    let mut row = item(1, "x");
    assert_eq!(page.section(&row), Section::Authored);
    row.author = Some("Bob".into());
    assert_eq!(page.section(&row), Section::Others);
    row.review = PullRequestReviewState::Required;
    assert_eq!(page.section(&row), Section::ReviewRequested);
    assert!(!page.is_authored(&row));
    assert_ne!(Section::Authored.label(), Section::Others.label());
}

#[test]
fn projects_are_listed_once_in_order() {
    let (mut page, _) = PullRequestsPage::new(true);
    assert!(page.project_options().is_empty());
    let of = |repository: &str| {
        let mut row = item(1, "x");
        row.repository = repository.into();
        row
    };
    page.loaded(NUMBER, Ok(vec![of("b/b"), of("a/a"), of("b/b"), of("c/c")]));
    assert_eq!(page.project_options(), ["a/a", "b/b", "c/c"]);
}

#[test]
fn rows_and_details_say_what_is_known() {
    let mut row = item(7, "x");
    row.draft = true;
    row.review = PullRequestReviewState::ChangesRequested;
    row.checks = PullRequestChecksState::Passing;
    assert_eq!(row.row_text(), "#7 · zeron/app · Ada · topic → main");
    let badge = |label, tone| Badge { label, tone };
    assert_eq!(
        row.badges(),
        [
            badge("Draft", Tone::Muted),
            badge("Changes requested", Tone::Danger),
            badge("Passing", Tone::Success),
        ]
    );
    assert_eq!(row.row_mark(), ProviderMark { icon: ProviderIcon::Github, tone: None });
    assert!(item(1, "x").badges().is_empty());
    let detail = row.detail();
    assert_eq!(detail.open_label, "Open in GitHub");
    assert_eq!(detail.reference, "zeron/app  #7");
    assert_eq!(detail.refs, "main  ←  topic");
    assert_eq!(detail.state, badge("Open", Tone::Success));
    assert_eq!(detail.review, badge("Changes requested", Tone::Danger));
    assert_eq!(detail.checks, badge("All checks passed", Tone::Success));
    assert_eq!(detail.mark, ProviderMark { icon: ProviderIcon::Github, tone: None });
    assert_eq!(detail.comments, "Comments  0");
    assert_eq!((detail.files.as_str(), detail.lines.as_str()), ("3 files", "+10 -4"));
    assert_eq!(detail.description, "No description provided.");
    row.description = Some("Why".into());
    assert_eq!(row.detail().description, "Why");
    row.provider = "gitlab".into();
    row.state = ChangeRequestState::Merged;
    assert_eq!(
        row.row_mark(),
        ProviderMark { icon: ProviderIcon::Branch, tone: Some(Tone::Accent) }
    );
    assert_eq!(
        row.detail().mark,
        ProviderMark { icon: ProviderIcon::PullRequest, tone: Some(Tone::Muted) }
    );
    row.provider = "bitbucket".into();
    assert_eq!(row.row_mark().icon, ProviderIcon::Bitbucket);
}

#[test]
fn the_filter_menu_shows_what_holds() {
    let (mut page, _) = PullRequestsPage::new(true);
    let of = |repository: &str| {
        let mut row = item(1, "x");
        row.repository = repository.into();
        row
    };
    page.loaded(NUMBER, Ok(vec![of("b/b"), of("a/a"), of("b/b")]));
    let headings: Vec<&str> = page.filter_menu().iter().map(|group| group.heading).collect();
    assert_eq!(
        headings,
        ["State", "Involvement", "Draft", "Review", "Checks", "Host", "Project"]
    );
    let labels = |options: &[FilterOption]| -> Vec<String> {
        options.iter().map(|option| option.label.clone()).collect()
    };
    let selected = |page: &PullRequestsPage| -> Vec<String> {
        let menu = page.filter_menu();
        menu.iter()
            .flat_map(|group| group.options.iter())
            .filter(|option| option.selected)
            .map(|option| option.label.clone())
            .collect()
    };
    let menu = page.filter_menu();
    assert_eq!(labels(&menu[0].options), ["All", "Open", "Closed", "Merged"]);
    assert_eq!(
        labels(&menu[3].options),
        ["All", "Approved", "Changes requested", "Review required", "No reviews"]
    );
    assert_eq!(labels(&menu[6].options), ["All projects", "a/a", "b/b"]);
    assert_eq!(
        selected(&page),
        ["Open", "All", "All", "All", "All", "All hosts", "All projects"]
    );
    assert!(page.choose_filter(FilterChoice::State(StateFilter::Merged)).reloads);
    assert!(!page.choose_filter(FilterChoice::Draft(DraftFilter::HideDrafts)).reloads);
    assert!(!page.choose_filter(FilterChoice::Review(ReviewFilter::NoReview)).reloads);
    assert!(!page.choose_filter(FilterChoice::Checks(ChecksFilter::Pending)).reloads);
    assert!(page.choose_filter(FilterChoice::Host(HostFilter::Bitbucket)).reloads);
    assert!(page.choose_filter(FilterChoice::Involvement(InvolvementFilter::Reviewing)).reloads);
    assert!(!page.choose_filter(FilterChoice::Involvement(InvolvementFilter::Reviewing)).reloads);
    // A choice closes the menu, but for an involvement that already holds.
    let held = FilterChoice::Involvement(InvolvementFilter::Reviewing);
    assert_eq!(page.choose_filter(held), FilterStep { closes: false, reloads: false });
    let drafts = FilterChoice::Draft(DraftFilter::HideDrafts);
    assert_eq!(page.choose_filter(drafts), FilterStep { closes: true, reloads: false });
    let project = ProjectFilter::Repository("b/b".into());
    assert!(page.choose_filter(FilterChoice::Project(project)).reloads);
    assert_eq!(
        selected(&page),
        ["Merged", "Reviewing", "Hide drafts", "No reviews", "Pending", "Bitbucket", "b/b"]
    );
}

#[test]
fn sections_hold_every_shown_row_once() {
    let (mut page, _) = PullRequestsPage::new(true);
    assert!(page.sections("").is_empty());
    page.accounts_listed(NUMBER, vec![SourceControlConnection {
        provider: "github".into(),
        account: Some("ADA".into()),
    }]);
    let mut asked = item(1, "asked");
    asked.review = PullRequestReviewState::Required;
    let mut other = item(2, "other");
    other.author = None;
    let mut closed = item(3, "closed");
    closed.state = ChangeRequestState::Closed;
    page.loaded(NUMBER, Ok(vec![other, item(4, "own"), asked, closed, item(5, "own too")]));
    let sections = page.sections("");
    let shown: Vec<(Section, Vec<usize>)> =
        sections.iter().map(|s| (s.section, s.rows.clone())).collect();
    assert_eq!(
        shown,
        [
            (Section::ReviewRequested, vec![2]),
            (Section::Authored, vec![1, 4]),
            (Section::Others, vec![0]),
        ]
    );
    let sections = page.sections("own");
    assert_eq!(sections.len(), 1);
    assert_eq!(sections[0].rows, [1, 4]);
}
