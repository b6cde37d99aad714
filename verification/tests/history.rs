use zeron::graph::layout_graph;
use zeron::history::{
    date_label, format_date, hidden_refs, path_color, ref_description, GitHistory,
    GitHistoryEvent, GitHistoryPage, ListChange,
};
use zeron::pane::PaneContext;
use zeron::proto::{Chat, GitHistoryCommit, GitHistoryRef, GitHistoryRefKind};

fn commit(sha: &str, parents: &[&str]) -> GitHistoryCommit {
    GitHistoryCommit {
        sha: sha.into(),
        parent_shas: parents.iter().map(|value| (*value).into()).collect(),
        subject: sha.into(),
        author_name: "Test".into(),
        author_email: "test@example.com".into(),
        authored_at: "2026-08-12T12:00:00Z".into(),
        refs: Vec::new(),
    }
}

#[test]
fn graph_splits_and_rejoins_merge_lanes() {
    let commits = vec![
        commit("merge", &["main", "feature"]),
        commit("main", &["base"]),
        commit("feature", &["base"]),
        commit("base", &[]),
    ];
    let graph = layout_graph(&commits, Some("merge"));
    assert_eq!(graph.rows.len(), commits.len());
    assert!(graph.max_lane_count >= 2);
    assert!(graph.rows[0].is_head);
    assert_eq!(graph.rows[0].segments.len(), 2);
    assert_eq!(graph.rows[3].segments.len(), 2);
    assert_eq!(graph.rows[3].node_lane, 0);
}

#[test]
fn appending_older_commits_preserves_the_loaded_prefix_layout() {
    let prefix = vec![commit("tip", &["parent"]), commit("parent", &["root"])];
    let before = layout_graph(&prefix, Some("tip"));
    let mut all = prefix.clone();
    all.push(commit("root", &[]));
    let after = layout_graph(&all, Some("tip"));
    assert_eq!(before.rows, after.rows[..before.rows.len()]);
}

#[test]
fn ref_tooltip_describes_each_reference_kind() {
    let reference =
        |kind: GitHistoryRefKind, label: &str| GitHistoryRef { kind, label: label.into() };
    assert_eq!(ref_description(&reference(GitHistoryRefKind::Branch, "main")), "Branch: main");
    assert_eq!(
        ref_description(&reference(GitHistoryRefKind::Remote, "origin/main")),
        "Remote branch: origin/main"
    );
    assert_eq!(ref_description(&reference(GitHistoryRefKind::Tag, "v0.1.52")), "Tag: v0.1.52");
}

#[test]
fn lanes_stay_below_the_count() {
    let commits = vec![
        commit("m2", &["m1", "f2"]),
        commit("f2", &["f1"]),
        commit("m1", &["base", "f1"]),
        commit("f1", &["base"]),
        commit("base", &[]),
    ];
    let graph = layout_graph(&commits, None);
    for row in &graph.rows {
        assert!(row.node_lane < graph.max_lane_count);
        for segment in &row.segments {
            assert!(segment.from_lane < graph.max_lane_count);
            assert!(segment.to_lane < graph.max_lane_count);
        }
    }
}

#[test]
fn dates_are_read_and_written() {
    assert_eq!(format_date("2026-08-03T12:00:00Z"), "Aug 3, 2026");
    assert_eq!(format_date("0987-12-31T23:59:59+02:00"), "Dec 31, 0987");
    assert_eq!(format_date("2026-01-09T00:00:00.5-11:30"), "Jan 9, 2026");
    assert_eq!(format_date("yesterday"), "—");
    assert_eq!(format_date("2026-13-01T00:00:00Z"), "—");
    assert_eq!(date_label(Some((7, 2, 28))), "Feb 28, 0007");
    assert_eq!(date_label(None), "—");
}

fn context(cwd: Option<&str>) -> PaneContext {
    PaneContext {
        chat: Some(Chat {
            id: "c".into(),
            device_id: "dev".into(),
            cwd: cwd.map(Into::into),
            branch: Some("main".into()),
            checkout_id: None,
        }),
        local_device_id: Some("dev".into()),
        engine_ready: true,
    }
}

fn page(shas: &[&str], next_cursor: Option<usize>) -> GitHistoryPage {
    GitHistoryPage {
        commits: shas.iter().map(|sha| commit(sha, &[])).collect(),
        head_sha: Some("a".into()),
        next_cursor,
        total_count: Some(9),
        head_commit_count: Some(7),
    }
}

#[test]
fn pages_are_loaded_once_and_appended_without_repeats() {
    let mut history = GitHistory::new();
    let cx = context(Some("/repo"));
    let first = history.ensure_loaded(&cx).unwrap();
    assert_eq!((first.key.as_str(), first.cursor, first.reset), ("local|/repo", 0, true));
    assert_eq!(first.limit, 100);
    assert_eq!(first.target, None);
    // A page is on its way: nothing more is asked for.
    assert!(history.ensure_loaded(&cx).is_none());
    assert_eq!(
        history.finish_page(first.number, "local|/repo", true, Ok(page(&["a", "b"], Some(100)))),
        Some(ListChange::Reset(3))
    );
    assert_eq!(history.commit_count(), Some(7));
    assert_eq!(history.count_label().as_deref(), Some("7 commits"));
    assert_eq!(history.current_branch(&cx).as_deref(), Some("main"));
    let older = history.load_older(&cx).unwrap();
    assert_eq!((older.cursor, older.reset), (100, false));
    assert_eq!(
        history.finish_page(older.number, "local|/repo", false, Ok(page(&["b", "c"], None))),
        Some(ListChange::Splice { start: 2, end: 3, count: 1 })
    );
    let shas: Vec<&str> = history.commits.iter().map(|c| c.sha.as_str()).collect();
    assert_eq!(shas, vec!["a", "b", "c"]);
    assert_eq!(history.graph.rows.len(), 3);
    assert!(history.load_older(&cx).is_none());
    // An answer for another place is dropped.
    let again = history.refresh(&cx).unwrap();
    let answer = Ok(page(&["z"], None));
    assert_eq!(history.finish_page(again.number, "local|/other", true, answer), None);
    assert_eq!(history.commits.len(), 3);
}

#[test]
fn another_place_starts_over_and_none_clears() {
    let mut history = GitHistory::new();
    let one = history.ensure_loaded(&context(Some("/one"))).unwrap();
    history.finish_page(one.number, "local|/one", true, Ok(page(&["a"], None)));
    let two = history.ensure_loaded(&context(Some("/two"))).unwrap();
    assert!(history.commits.is_empty());
    assert_eq!(history.empty_state().unwrap().message, "Loading history…");
    assert_eq!(history.finish_page(two.number, "local|/two", true, Err("boom".into())), None);
    let failed = history.empty_state().unwrap();
    assert_eq!((failed.message.as_str(), failed.warn), ("boom", true));
    assert_eq!(history.older_label(), "Retry");
    // A failure is not retried unasked.
    assert!(history.ensure_loaded(&context(Some("/two"))).is_none());
    assert!(history.refresh(&context(Some("/two"))).is_some());
    history.ensure_loaded(&context(None));
    assert_eq!(history.empty_state().unwrap().message, "No repository selected");
}

#[test]
fn a_fetch_reloads_the_first_page_or_says_why_not() {
    let mut history = GitHistory::new();
    let cx = context(Some("/repo"));
    let first = history.ensure_loaded(&cx).unwrap();
    history.finish_page(first.number, "local|/repo", true, Ok(page(&["a"], None)));
    assert_eq!(history.fetch_label(), "Fetch all");
    let fetch = history.fetch_all(&cx).unwrap();
    assert_eq!(history.fetch_label(), "Fetching…");
    assert!(history.fetch_all(&cx).is_none());
    let (event, page) = history.finish_fetch(fetch, Ok(()), true);
    assert!(matches!(event, Some(GitHistoryEvent::FetchSucceeded)));
    assert_eq!(page.unwrap().cursor, 0);
    let fetch = history.fetch_all(&cx).unwrap();
    let (event, page) = history.finish_fetch(fetch, Err("offline".into()), true);
    assert!(event.is_none() && page.is_none());
    assert_eq!(history.fetch_error.as_deref(), Some("offline"));
    assert_eq!(history.banners().fetch.as_deref(), Some("Fetch failed: offline"));
}

#[test]
fn a_superseded_request_never_lands() {
    let mut history = GitHistory::new();
    let (one, two) = (context(Some("/one")), context(Some("/two")));
    let left = history.ensure_loaded(&one).unwrap();
    let fetch = history.fetch_all(&one).unwrap();
    history.ensure_loaded(&two).unwrap();
    // The place is shown again: its first answers are still out of date.
    let current = history.ensure_loaded(&one).unwrap();
    assert_ne!(left.number, current.number);
    assert!(history.fetch_all(&one).is_some());
    let late = history.finish_page(left.number, &left.key, true, Ok(page(&["stale"], None)));
    assert_eq!(late, None);
    assert!(history.loading && history.commits.is_empty());
    let (event, reload) = history.finish_fetch(fetch, Ok(()), true);
    assert!(event.is_none() && reload.is_none() && history.fetching_all);
    let taken = history.finish_page(current.number, &current.key, true, Ok(page(&["a"], None)));
    assert_eq!(taken, Some(ListChange::Reset(1)));
    // Nor does a page of a place that is no longer shown, until it is shown again.
    let mut history_of_none = GitHistory::new();
    let page_request = history_of_none.ensure_loaded(&one).unwrap();
    history_of_none.ensure_loaded(&context(None));
    let mut offline = context(Some("/one"));
    offline.engine_ready = false;
    let answer = || Ok(page(&["a"], None));
    let number = page_request.number;
    assert_eq!(history_of_none.finish_page(number, &page_request.key, true, answer()), None);
    assert!(history_of_none.refresh(&offline).is_none());
    let landed = history_of_none.finish_page(number, &page_request.key, true, answer());
    assert_eq!(landed, Some(ListChange::Reset(1)));
    // An answer lands once.
    let twice = history.finish_page(current.number, &current.key, true, Ok(page(&["b"], None)));
    assert_eq!(twice, None);
}

#[test]
fn a_failed_page_is_told_above_the_rows_that_are_there() {
    let mut history = GitHistory::new();
    let cx = context(Some("/repo"));
    let first = history.ensure_loaded(&cx).unwrap();
    history.finish_page(first.number, &first.key, true, Err("boom".into()));
    assert_eq!(history.banners().page, None);
    let again = history.refresh(&cx).unwrap();
    history.finish_page(again.number, &again.key, true, Ok(page(&["a"], Some(1))));
    let older = history.load_older(&cx).unwrap();
    history.finish_page(older.number, &older.key, false, Err("boom".into()));
    assert_eq!(history.banners().page.as_deref(), Some("boom"));
    assert_eq!(history.banners().fetch, None);
}

#[test]
fn rows_say_what_their_commit_says() {
    let mut history = GitHistory::new();
    let cx = context(Some("/repo"));
    let first = history.ensure_loaded(&cx).unwrap();
    let mut full = page(&["0123456789"], None);
    full.commits[0].subject = String::new();
    full.commits[0].author_name = String::new();
    history.finish_page(first.number, "local|/repo", true, Ok(full));
    let texts = history.row_texts(0).unwrap();
    assert_eq!(texts.subject, "(no subject)");
    assert_eq!(texts.author, "Unknown");
    assert_eq!(texts.date, "Aug 12, 2026");
    assert_eq!(texts.sha, "0123456");
    let first = history.copy_sha("0123456789".into());
    let timer = history.copy_sha("0123456789".into());
    assert_eq!(timer.shown, 1200);
    // The first copy's timer does not cut the second one short.
    history.copy_expired(first.number);
    assert_eq!(history.row_texts(0).unwrap().sha, "Copied");
    history.copy_expired(timer.number);
    assert!(!history.row_texts(0).unwrap().copied);
    assert!(history.row_texts(1).is_none());
}

#[test]
fn refs_that_do_not_fit_are_counted_and_described() {
    let refs = vec![
        GitHistoryRef { kind: GitHistoryRefKind::Branch, label: "main".into() },
        GitHistoryRef { kind: GitHistoryRefKind::Tag, label: "v1".into() },
        GitHistoryRef { kind: GitHistoryRefKind::Remote, label: "origin/main".into() },
    ];
    let hidden = hidden_refs(&refs, 1).unwrap();
    assert_eq!(hidden.label, "+2");
    assert_eq!(hidden.descriptions, vec!["Tag: v1", "Remote branch: origin/main"]);
    assert!(hidden_refs(&refs, 3).is_none());
    assert_eq!(path_color(8), 2);
}
