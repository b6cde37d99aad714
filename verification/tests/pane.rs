use zeron::changes::{DiffFrame, DiffScope};
use zeron::comments::{CommentSide, DiffComment};
use zeron::drafts::{old_path_of, Pins};
use zeron::folds::{comment_state_key, hash64, DiffPane};
use zeron::highlights::{
    finish_excerpt, finish_full, has_side, request_highlight, side_path, DiffHighlightState,
    DiffHighlights, HighlightAnswer, SourceSide,
};
use zeron::pane::{Changes, PaneContext, ParsedDiff, SyncPlan};
use zeron::pane_view::{
    added_label, gutter_text, line_marker, removed_label, scoped_notice, ContentPlan,
    HeaderControls, MenuKey, PaneContent, RefMenu, RefMenuStep, RowView,
};
use zeron::patch::{parse_patch, LineKind};
use zeron::proto::{Chat, CheckoutDiff, GitHistoryCommit};
use zeron::rows::DiffRow;

const PATCH: &str = "\
diff --git a/old.rs b/new.rs
rename from old.rs
rename to new.rs
@@ -1,2 +1,2 @@
 keep
-gone
+here
diff --git a/b.rs b/b.rs
@@ -5 +5 @@
-x
+y
";

fn context(device: &str) -> PaneContext {
    PaneContext {
        chat: Some(Chat {
            id: "chat".into(),
            device_id: device.into(),
            cwd: Some("/repo".into()),
            branch: Some("topic".into()),
            checkout_id: Some("co".into()),
        }),
        local_device_id: Some("local-dev".into()),
        engine_ready: true,
    }
}

fn diff(checksum: &str) -> CheckoutDiff {
    CheckoutDiff {
        checkout_id: "co".into(),
        device_id: "local-dev".into(),
        cwd: "/repo".into(),
        patch: PATCH.into(),
        files: Vec::new(),
        additions: 2,
        deletions: 2,
        truncated: false,
        checksum: checksum.into(),
        updated_at: 0,
    }
}

/// The number of the watch that is opened.
fn watched(pane: &mut Changes, cx: &PaneContext) -> u64 {
    pane.ensure_watch(cx).unwrap().number
}

#[test]
fn the_watch_follows_the_device_of_the_chat() {
    let mut pane = Changes::new();
    let near = context("local-dev");
    let mut booting = context("local-dev");
    booting.engine_ready = false;
    assert_eq!(pane.ensure_watch(&booting), None);
    let watch = pane.ensure_watch(&near).unwrap();
    assert_eq!(watch.target, None);
    assert_eq!(pane.ensure_watch(&near), None);
    assert!(pane.on_watch_frame(watch.number, DiffFrame::One(diff("s1"))));
    pane.on_watch_lost(watch.number, None);
    assert_eq!(pane.error.as_deref(), Some("Diff stream interrupted — retrying"));
    assert_eq!(pane.resolved(&near).unwrap().checksum, "s1");
    pane.on_watch_lost(watch.number, Some("offline"));
    assert_eq!(pane.error.as_deref(), Some("Diff watch unavailable: offline"));
    let far = context("other-dev");
    let retargeted = pane.ensure_watch(&far).unwrap();
    assert_eq!(retargeted.target.as_deref(), Some("other-dev"));
    // The watch of the previous device has ended.
    assert!(!pane.on_watch_frame(watch.number, DiffFrame::One(diff("late"))));
    pane.on_watch_lost(watch.number, None);
    assert!(pane.diffs.is_empty() && pane.error.is_none());
}

#[test]
fn content_is_parsed_once_per_diff_and_scope() {
    let mut pane = Changes::new();
    let cx = context("local-dev");
    assert_eq!(pane.content_plan(&cx, None), ContentPlan::Drop);
    assert_eq!(pane.content(&cx, false), PaneContent::Preparing);
    let watch = watched(&mut pane, &cx);
    pane.on_watch_frame(watch, DiffFrame::One(diff("s1")));
    let key = "co:s1:wt";
    assert_eq!(pane.content_plan(&cx, None), ContentPlan::Parse(key.into()));
    assert_eq!(pane.content_plan(&cx, Some(key)), ContentPlan::Keep);
    assert!(pane.awaits_parse(&cx, key) && !pane.awaits_parse(&cx, "co:s0:wt"));
    assert_eq!(pane.content(&cx, false), PaneContent::Parsing);
    assert_eq!(pane.content(&cx, true), PaneContent::List);
    let parsed = ParsedDiff::parse(key.into(), &diff("s1"), &[], None);
    assert_eq!((parsed.file_count, parsed.pane.files.len()), (2, 2));
    let strip = pane.header_strip(&parsed);
    assert_eq!(strip.label, "2 Uncommitted changes");
    assert_eq!((strip.added.as_str(), strip.removed.as_str()), ("+2", "−2"));
    pane.set_scope(DiffScope::History);
    assert_eq!(pane.content_plan(&cx, None), ContentPlan::History);
    let mut nothing = context("local-dev");
    nothing.chat = None;
    assert_eq!(
        Changes::new().content(&nothing, false),
        PaneContent::Clean("No uncommitted changes".into())
    );
}

#[test]
fn scoped_captures_are_fetched_once_per_key() {
    let mut pane = Changes::new();
    let cx = context("local-dev");
    let watch = watched(&mut pane, &cx);
    pane.on_watch_frame(watch, DiffFrame::One(diff("s1")));
    assert!(pane.ensure_scoped(&cx).is_none());
    assert!(pane.set_scope(DiffScope::Branch));
    assert!(!pane.set_scope(DiffScope::Branch));
    assert!(pane.ensure_scoped(&cx).is_none());
    let branches = pane.ensure_branches(&cx).unwrap();
    assert_eq!((branches.key.as_str(), branches.repo_path.as_str()), ("local:/repo", "/repo"));
    assert!(pane.ensure_branches(&cx).is_none());
    let names = vec!["main".to_string(), "topic".to_string()];
    pane.finish_branches(branches.number, "stale", Some(Vec::new()), None);
    pane.finish_branches(branches.number + 9, &branches.key, Some(Vec::new()), None);
    pane.finish_branches(branches.number, &branches.key, Some(names), Some("topic"));
    assert_eq!(pane.base_ref.as_deref(), Some("main"));
    let request = pane.ensure_scoped(&cx).unwrap();
    assert_eq!((request.mode.as_str(), request.base_ref.as_deref()), ("branch", Some("main")));
    assert_eq!(request.key, "local|chat|/repo|branch|main||s1");
    assert!(pane.ensure_scoped(&cx).is_none());
    assert!(!pane.finish_scoped(request.number, "stale", Ok(diff("x"))));
    assert!(pane.finish_scoped(request.number, &request.key, Ok(diff("scoped"))));
    assert_eq!(pane.active_diff(&cx).unwrap().checksum, "scoped");
    assert!(pane.ensure_scoped(&cx).is_none());
    // A new checksum asks again, and keeps what is shown.
    pane.on_watch_frame(watch, DiffFrame::One(diff("s2")));
    let again = pane.ensure_scoped(&cx).unwrap();
    assert_eq!(pane.active_diff(&cx).unwrap().checksum, "scoped");
    assert!(pane.finish_scoped(again.number, &again.key, Err("unknown method".into())));
    assert!(matches!(pane.content(&cx, true), PaneContent::Notice { warn: false, .. }));
    assert!(pane.set_base_ref("dev".into()));
    assert!(!pane.set_base_ref("dev".into()));
    assert_eq!(pane.scope_key(), "br:dev");
    assert!(pane.ensure_scoped(&cx).is_some());
    assert!(pane.active_diff(&cx).is_none());
}

#[test]
fn a_fetch_of_the_remotes_reads_refs_and_captures_afresh() {
    let mut pane = Changes::new();
    let cx = context("local-dev");
    let watch = watched(&mut pane, &cx);
    pane.on_watch_frame(watch, DiffFrame::One(diff("s1")));
    pane.set_scope(DiffScope::Branch);
    let branches = pane.ensure_branches(&cx).unwrap();
    pane.finish_branches(branches.number, &branches.key, Some(vec!["main".to_string()]), None);
    let request = pane.ensure_scoped(&cx).unwrap();
    assert!(pane.finish_scoped(request.number, &request.key, Ok(diff("scoped"))));
    assert!(pane.ensure_branches(&cx).is_none());
    assert!(pane.ensure_scoped(&cx).is_none());
    pane.on_fetch_succeeded();
    let first_list = pane.ensure_branches(&cx).unwrap();
    let first = pane.ensure_scoped(&cx).unwrap();
    // Another fetch succeeds while both are on their way: only what is asked for then counts.
    pane.on_fetch_succeeded();
    let second_list = pane.ensure_branches(&cx).unwrap();
    let second = pane.ensure_scoped(&cx).unwrap();
    assert_eq!(first.key, second.key);
    assert!(!pane.finish_scoped(first.number, &first.key, Ok(diff("before"))));
    assert!(pane.finish_scoped(second.number, &second.key, Ok(diff("after"))));
    assert_eq!(pane.active_diff(&cx).unwrap().checksum, "after");
    pane.finish_branches(first_list.number, &first_list.key, Some(Vec::new()), None);
    assert_eq!(pane.branches, ["main"]);
    let names = vec!["main".to_string(), "new".to_string()];
    pane.finish_branches(second_list.number, &second_list.key, Some(names), None);
    assert_eq!(pane.branches, ["main", "new"]);
}

#[test]
fn each_scope_keeps_its_own_things_up_to_date() {
    let mut pane = Changes::new();
    let plan = |history, branches, scoped| SyncPlan { history, branches, scoped };
    assert_eq!(pane.sync_plan(), plan(false, true, true));
    pane.set_scope(DiffScope::History);
    assert_eq!(pane.sync_plan(), plan(true, false, false));
    pane.set_scope(DiffScope::Commit);
    assert_eq!(pane.sync_plan(), plan(false, false, true));
}

#[test]
fn full_sources_are_asked_for_of_the_diff_on_show() {
    let mut pane = Changes::new();
    let mut cx = context("local-dev");
    assert_eq!(pane.file_text_request(&cx, "a.rs"), None);
    let watch = watched(&mut pane, &cx);
    pane.on_watch_frame(watch, DiffFrame::One(diff("s1")));
    pane.set_base_ref("main".into());
    let request = pane.file_text_request(&cx, "a.rs").unwrap();
    assert_eq!((request.path.as_str(), request.mode), ("a.rs", "workingTree"));
    assert_eq!(request.checkout_id, diff("s1").checkout_id);
    assert_eq!(request.cwd, diff("s1").cwd);
    assert_eq!(request.diff_checksum, "s1");
    assert_eq!(request.base_ref.as_deref(), Some("main"));
    assert_eq!(request.chat_id.as_deref(), Some("chat"));
    assert_eq!((request.commit_sha, request.target), (None, None));
    cx.engine_ready = false;
    assert_eq!(pane.file_text_request(&cx, "a.rs"), None);
}

#[test]
fn notices_of_scoped_failures() {
    assert_eq!(
        scoped_notice("rpc: no turn recorded for chat"),
        ("No turn recorded yet — send a message first".to_string(), false)
    );
    assert_eq!(scoped_notice("boom"), ("boom".to_string(), true));
}

#[test]
fn headers_and_menus() {
    let cx = context("local-dev");
    let mut pane = Changes::new();
    assert!(pane.ref_selector(&cx).is_none());
    pane.set_scope(DiffScope::Branch);
    let refs = pane.ref_selector(&cx).unwrap();
    assert_eq!((refs.branch.as_str(), refs.base.as_str()), ("topic", "…"));
    assert_eq!(pane.scope_menu()[1], (DiffScope::Branch, true));
    assert_eq!(pane.ref_menu(&vec![], 0), RefMenu::Empty("No branches".into()));
    pane.branches = vec!["main".into(), "dev".into()];
    pane.base_ref = Some("dev".into());
    assert_eq!(pane.ref_menu(&vec![], 0), RefMenu::Empty("No matching branches".into()));
    assert_eq!(pane.ref_menu_start(), 1);
    assert_eq!(pane.ref_menu_pick(&vec![1, 0], 1).as_deref(), Some("main"));
    assert_eq!(pane.ref_menu_pick(&vec![1], 1), None);
    match pane.ref_menu(&vec![1, 0], 0) {
        RefMenu::Rows(rows) => {
            assert!(rows[0].selected && rows[0].active);
            assert!(!rows[1].selected && !rows[1].active);
        }
        _ => panic!("no rows"),
    }
    assert_eq!(pane.tab_title(), DiffScope::Branch.label());
}

#[test]
fn a_commit_pane_is_named_after_its_commit() {
    let mut commit = GitHistoryCommit {
        sha: "0123456789".into(),
        parent_shas: Vec::new(),
        subject: "  Fix it ".into(),
        author_name: String::new(),
        author_email: String::new(),
        authored_at: String::new(),
        refs: Vec::new(),
    };
    let mut pane = Changes::for_commit(commit.clone());
    pane.scoped = Some(diff("s1"));
    let request = pane.file_text_request(&context("local-dev"), "a.rs").unwrap();
    assert_eq!((request.mode, request.commit_sha.as_deref()), ("commit", Some(commit.sha.as_str())));
    pane.scoped = None;
    assert_eq!(pane.tab_title(), "Fix it");
    assert_eq!(pane.scope_key(), "commit:0123456789");
    assert!(matches!(
        pane.header_controls(&context("local-dev")),
        HeaderControls::Commit { ref short, .. } if short == "0123456"
    ));
    commit.subject = " ".into();
    assert_eq!(Changes::for_commit(commit).tab_title(), "0123456");
}

#[test]
fn folds_open_and_settle() {
    let mut pane = DiffPane::show(parse_patch(PATCH), &[], None);
    let open = pane.rows.len();
    let splice = pane.toggle_fold(0, 1_000).unwrap();
    assert_eq!(pane.rows[1], DiffRow::FoldingBody { file: 0 });
    assert_eq!((splice.start, splice.count), (1, 1));
    assert!(pane.fold("new.rs").collapsed);
    assert!(pane.fold("new.rs").animating(1_100));
    assert!(pane.settle_folds(&[], None, 1_100).0);
    assert!(!pane.settle_folds(&[], None, 1_400).0);
    assert_eq!(pane.ranges[0].len(), 1);
    assert_eq!(pane.ranges[1].end, pane.rows.len());
    pane.toggle_fold(0, 2_000);
    pane.settle_folds(&[], None, 9_000);
    assert_eq!(pane.rows.len(), open);
    assert_eq!(pane.toggle_fold(9, 0), None);
    assert!(!pane.all_collapsed());
    pane.toggle_collapse_all(&[], None);
    assert!(pane.all_collapsed());
    assert_eq!(pane.rows.len(), 2);
    pane.toggle_collapse_all(&[], None);
    assert_eq!(pane.rows.len(), open);
}

#[test]
fn cards_move_only_the_rows_they_touch() {
    let mut pane = DiffPane::show(parse_patch(PATCH), &[], None);
    assert!(pane.sync_comment_rows(&[], None).is_empty());
    let before = pane.rows.len();
    let note = vec![DiffComment::new("b.rs", CommentSide::New, 5, "why?")];
    let splices = pane.sync_comment_rows(&note, None);
    assert_eq!(splices.len(), 1);
    assert_eq!(pane.rows.len(), before + 1);
    assert!(pane.sync_comment_rows(&note, None).is_empty());
    assert_ne!(comment_state_key(&note, None), comment_state_key(&[], None));
    let parts = |p: &[&str]| -> Vec<String> { p.iter().map(|s| s.to_string()).collect() };
    assert_eq!(hash64(&parts(&["a", "b"])), hash64(&parts(&["a", "b"])));
    assert_ne!(hash64(&parts(&["a", "b"])), hash64(&parts(&["ab"])));
}

#[test]
fn rows_show_what_they_stand_for() {
    let pane = DiffPane::show(parse_patch(PATCH), &[], None);
    let pins = Pins { draft: None, hover: None };
    match pane.row_view(0, &[], &pins, 0) {
        RowView::FileHeader(header) => {
            assert_eq!(header.path, "new.rs");
            assert_eq!(header.added.as_deref(), Some("+1"));
            assert!(!header.separated);
        }
        _ => panic!("no header"),
    }
    assert!(matches!(pane.row_view(1, &[], &pins, 0), RowView::Notice(_)));
    assert!(matches!(pane.row_view(2, &[], &pins, 0), RowView::HunkHeader("@@ -1,2 +1,2 @@")));
    match pane.row_view(4, &[], &pins, 0) {
        RowView::Line { line, anchor, hovered } => {
            assert_eq!(line.text, "gone");
            assert_eq!(anchor, Some((CommentSide::Old, 2)));
            assert!(!hovered);
        }
        _ => panic!("no line"),
    }
    assert!(matches!(pane.row_view(999, &[], &pins, 0), RowView::Nothing));
    assert_eq!(line_marker(LineKind::Add), '+');
    assert_eq!(line_marker(LineKind::Del), '−');
    assert_eq!((gutter_text(Some(42)), gutter_text(None)), ("42".to_string(), String::new()));
    assert_eq!((added_label(7), removed_label(0)), ("+7".to_string(), "−0".to_string()));
}

#[test]
fn a_draft_becomes_a_comment_on_its_line() {
    let files = parse_patch(PATCH);
    let mut pins = Pins { draft: None, hover: None };
    assert!(pins.set_hover("new.rs", Some((CommentSide::Old, 2))));
    assert!(!pins.set_hover("new.rs", Some((CommentSide::Old, 2))));
    assert!(pins.hovered("new.rs", CommentSide::Old, 2));
    assert!(!pins.clear_hover_at("new.rs", CommentSide::New, 2));
    assert!(pins.clear_hover_at("new.rs", CommentSide::Old, 2));
    assert_eq!(old_path_of(&files, "new.rs").as_deref(), Some("old.rs"));
    pins.open_draft(&files, "chat", "new.rs", CommentSide::Old, 2);
    assert_eq!(pins.draft.as_ref().unwrap().heading(), "old.rs:2");
    assert_eq!(pins.draft_anchor(), Some(("new.rs", CommentSide::Old, 2)));
    assert_eq!(pins.draft_anchor_in("b.rs"), None);
    assert!(!pins.discard_stale_draft("chat"));
    let (key, comment) = pins.commit_draft("  why? \n").unwrap();
    assert_eq!((key.as_str(), comment.body.as_str()), ("chat", "why?"));
    assert_eq!(comment.location(), "old.rs:2");
    pins.open_draft(&files, "chat", "b.rs", CommentSide::New, 5);
    assert!(pins.commit_draft(" ").is_none());
    pins.open_draft(&files, "chat", "b.rs", CommentSide::New, 5);
    assert!(pins.discard_stale_draft("other"));
    pins.cancel_draft();
    assert!(pins.draft_anchor().is_none());
}

#[test]
fn highlights_arrive_in_two_steps() {
    let empty = || Some(DiffHighlights { old: None, new: None });
    let mut slot = None;
    assert_eq!(request_highlight(&mut slot, 7, 1, false, true), HighlightAnswer::NoLanguage);
    assert_eq!(request_highlight(&mut slot, 7, 1, true, true), HighlightAnswer::Start);
    assert_eq!(request_highlight(&mut slot, 8, 1, true, true), HighlightAnswer::Wait);
    assert!(!finish_excerpt(&mut slot, 8, empty()));
    assert!(finish_excerpt(&mut slot, 7, empty()));
    assert_eq!(request_highlight(&mut slot, 8, 1, true, true), HighlightAnswer::Use);
    assert!(!finish_full(&mut slot, 7, None));
    assert!(finish_full(&mut slot, 7, empty()));
    assert!(matches!(slot.as_ref().unwrap().state, DiffHighlightState::Ready(_)));
    assert!(!finish_excerpt(&mut slot, 7, None));
    let files = parse_patch(PATCH);
    assert!(has_side(&files[0], SourceSide::Old));
    assert_eq!(side_path(&files[0], SourceSide::Old), "old.rs");
    assert_eq!(side_path(&files[0], SourceSide::New), "new.rs");
}

#[test]
fn keys_drive_an_open_base_menu() {
    let mut pane = Changes::new();
    pane.branches = vec!["main".into(), "dev".into()];
    let rows = vec![1, 0];
    assert_eq!(pane.ref_menu_key(false, MenuKey::Enter, &rows, 0, None), RefMenuStep::Ignore);
    assert_eq!(pane.ref_menu_key(true, MenuKey::Escape, &rows, 0, None), RefMenuStep::Close);
    assert_eq!(
        pane.ref_menu_key(true, MenuKey::Down, &rows, 0, Some(1)),
        RefMenuStep::Highlight(1)
    );
    assert_eq!(pane.ref_menu_key(true, MenuKey::Up, &vec![], 0, None), RefMenuStep::Highlight(0));
    assert_eq!(pane.base_ref, None);
    let picked = pane.ref_menu_key(true, MenuKey::Enter, &rows, 0, None);
    assert_eq!(picked, RefMenuStep::Picked { changed: true });
    assert_eq!(pane.base_ref.as_deref(), Some("dev"));
    let again = pane.ref_menu_key(true, MenuKey::ModEnter, &rows, 0, None);
    assert_eq!(again, RefMenuStep::Picked { changed: false });
    assert_eq!(pane.ref_menu_key(true, MenuKey::Enter, &rows, 2, None), RefMenuStep::Ignore);
    assert_eq!(pane.ref_menu_key(true, MenuKey::Other, &rows, 0, None), RefMenuStep::Ignore);
}
