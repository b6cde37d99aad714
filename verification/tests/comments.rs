use zeron::comments::{
    card_body_lines, chip_label, extract_badge, with_comments, CommentSide, DiffComment,
    CARD_MAX_LINES, CARD_WRAP_COLUMNS, COMMENT_BLOCK_HEADER, COMMENT_ONLY_TEXT,
};

fn comment(path: &str, side: CommentSide, line: u32, body: &str) -> DiffComment {
    DiffComment::new(path, side, line, body)
}

#[test]
fn empty_set_leaves_the_prompt_untouched() {
    assert_eq!(with_comments("ship it", &[]), "ship it");
}

#[test]
fn comments_append_as_located_bullets() {
    let staged = vec![
        comment("src/main.rs", CommentSide::New, 42, "early-return here"),
        comment("src/lib.rs", CommentSide::Old, 7, "why was this dropped?"),
    ];
    let out = with_comments("look at these", &staged);
    assert!(out.starts_with("look at these\n\n"));
    assert!(out.contains("- src/main.rs:42 (R): early-return here"));
    assert!(out.contains("- src/lib.rs:7 (L): why was this dropped?"));
}

#[test]
fn comment_only_send_gets_a_body() {
    let staged = vec![comment("a.rs", CommentSide::New, 1, "fix")];
    assert!(with_comments("", &staged).starts_with(COMMENT_ONLY_TEXT));
}

#[test]
fn multiline_bodies_indent_under_their_bullet() {
    let staged = vec![comment("a.rs", CommentSide::New, 3, "first\nsecond")];
    assert!(with_comments("x", &staged).contains("- a.rs:3 (R): first\n  second"));
}

#[test]
fn chip_label_pluralizes() {
    assert_eq!(chip_label(1), "1 comment");
    assert_eq!(chip_label(2), "2 comments");
    assert_eq!(chip_label(0), "0 comments");
}

#[test]
fn a_body_quoting_a_side_marker_survives_the_round_trip() {
    let staged = vec![comment("a.rs", CommentSide::New, 5, "see (L): the other one")];
    let (text, badge) = extract_badge(&with_comments("x", &staged)).unwrap();
    assert_eq!(text, "x");
    assert_eq!(badge.details.len(), 1);
    assert_eq!(badge.details[0].location, "a.rs:5");
    assert_eq!(badge.details[0].tag.as_deref(), Some("R"));
    assert_eq!(badge.details[0].body, "see (L): the other one");
}

#[test]
fn a_renamed_file_cites_the_side_the_line_lives_in() {
    let old =
        comment("new_name.rs", CommentSide::Old, 7, "why dropped?").renamed_from(Some("old_name.rs"));
    let new = comment("new_name.rs", CommentSide::New, 12, "nit").renamed_from(Some("old_name.rs"));
    assert_eq!(old.path, "new_name.rs");
    assert_eq!(new.path, "new_name.rs");
    let out = with_comments("x", &[old, new]);
    assert!(out.contains("- old_name.rs:7 (L): why dropped?"));
    assert!(out.contains("- new_name.rs:12 (R): nit"));
}

#[test]
fn an_unrenamed_file_cites_its_only_path_on_both_sides() {
    let staged = vec![
        comment("a.rs", CommentSide::Old, 3, "gone"),
        comment("a.rs", CommentSide::New, 4, "here"),
    ];
    let out = with_comments("x", &staged);
    assert!(out.contains("- a.rs:3 (L): gone"));
    assert!(out.contains("- a.rs:4 (R): here"));
}

#[test]
fn long_lines_are_charged_for_their_soft_wraps() {
    assert_eq!(card_body_lines("short"), 1);
    assert_eq!(card_body_lines(&"x".repeat(CARD_WRAP_COLUMNS)), 1);
    assert_eq!(card_body_lines(&"x".repeat(CARD_WRAP_COLUMNS + 1)), 2);
    assert_eq!(card_body_lines(&"line\n".repeat(200)), CARD_MAX_LINES);
}

#[test]
fn the_badge_gives_the_comments_back() {
    let staged = vec![
        comment("src/a.rs", CommentSide::Old, 9, "  first\nsecond  "),
        comment("src/b.rs", CommentSide::New, 10, "third"),
    ];
    let prompt = with_comments("do it", &staged);
    assert!(prompt.contains(COMMENT_BLOCK_HEADER));
    let (text, badge) = extract_badge(&prompt).unwrap();
    assert_eq!(text, "do it");
    assert_eq!(badge.label, "2 comments");
    let details: Vec<(&str, Option<&str>, &str)> = badge
        .details
        .iter()
        .map(|d| (d.location.as_str(), d.tag.as_deref(), d.body.as_str()))
        .collect();
    assert_eq!(
        details,
        vec![
            ("src/a.rs:9", Some("L"), "first\nsecond"),
            ("src/b.rs:10", Some("R"), "third"),
        ]
    );
}

#[test]
fn a_prompt_without_comments_has_no_badge() {
    assert!(extract_badge("just text").is_none());
    assert!(extract_badge("").is_none());
}

#[test]
fn comment_ids_are_fresh_uuids() {
    let a = comment("a.rs", CommentSide::New, 1, "x");
    let b = comment("a.rs", CommentSide::New, 1, "x");
    assert_eq!(a.id.len(), 36);
    assert_eq!(a.id.as_bytes()[14], b'4');
    assert_ne!(a.id, b.id);
    assert_eq!(a.anchor(), (CommentSide::New, 1));
    assert_eq!(a.location(), "a.rs:1");
}
