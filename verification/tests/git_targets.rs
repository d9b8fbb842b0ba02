use skills::git_review::targets::{
    commit_line,
    range_revision, ref_revision, requested, requested_outside_range, requested_refs,
    select_commits,
};
use skills::error::SkillError;

#[test]
fn ignores_empty_requested_ref() {
    let commit = "0123456789abcdef";
    let refs = vec![String::new()];
    let specs = requested_refs(&refs);
    let resolved: Vec<String> = Vec::new();

    assert!(specs.is_empty());
    assert!(requested(!refs.is_empty(), commit, &resolved).is_empty());
}

#[test]
fn single_ref_is_its_own_range() {
    assert_eq!(ref_revision("abc"), "abc^..abc");
    assert_eq!(ref_revision("abc..def"), "abc..def");
    assert_eq!(range_revision("main", "HEAD"), "main..HEAD");
}

#[test]
fn whole_range_is_requested_without_refs() {
    assert_eq!(
        requested(false, "a\nb\n", &[]),
        vec!["a".to_owned(), "b".to_owned()]
    );
    assert_eq!(
        requested(true, "a\nb\n", &["c\n".to_owned(), "d\ne".to_owned()]),
        vec!["c".to_owned(), "d".to_owned(), "e".to_owned()]
    );
}

#[test]
fn selected_commits_keep_range_order() {
    let selected = vec!["second".to_owned(), "first".to_owned(), "elsewhere".to_owned()];
    assert_eq!(
        select_commits("first\nmiddle\nsecond\n", &selected),
        vec!["first".to_owned(), "second".to_owned()]
    );
    assert_eq!(
        requested_refs(&["".to_owned(), "x".to_owned(), "".to_owned(), "y".to_owned()]),
        vec!["x".to_owned(), "y".to_owned()]
    );
}

#[test]
fn rejects_commit_outside_range() {
    let commits = "base1\ninside2\n";
    let selected = vec!["outside".to_owned()];

    let error = requested_outside_range(commits, &selected).unwrap_err();
    assert_eq!(error.exit_code(), 4);
    assert_eq!(
        error.render(),
        "invalid input: requested commits are outside the review range: outside"
    );
}

#[test]
fn outside_commits_are_listed_in_request_order() {
    let commits = "a\nb\n";
    let selected = vec!["z".to_owned(), "a".to_owned(), "y".to_owned()];

    assert!(matches!(
        requested_outside_range(commits, &selected),
        Err(SkillError::InvalidInput { message })
            if message == "requested commits are outside the review range: z, y"
    ));
    assert!(requested_outside_range(commits, &["b".to_owned(), "a".to_owned()]).is_ok());
    assert!(requested_outside_range(commits, &[]).is_ok());
}

#[test]
fn commit_lines_are_json_objects() {
    assert_eq!(commit_line("abc123"), "{\"commit\":\"abc123\"}");
    assert_eq!(commit_line("a\"b"), "{\"commit\":\"a\\\"b\"}");
}
