use gira::utils::{bump_branch, bump_branch_checked, normalize_title};

#[test]
fn normalize_strips_nonword() {
    assert_eq!(normalize_title(&"(test))branch".to_string()), "test-branch");
}

#[test]
fn normalize_is_idempotent_on_samples() {
    let samples = vec![
        "(test))branch".to_string(),
        "  hello   world ".to_string(),
        "h\u{e9}llo w\u{f6}rld".to_string(),
        "--a--b--".to_string(),
        "_under_score_".to_string(),
        "Fix login bug".to_string(),
    ];
    for s in samples {
        let once = normalize_title(&s);
        let twice = normalize_title(&once);
        assert_eq!(twice, once);
    }
}

#[test]
fn normalize_title_of_issue_summary() {
    assert_eq!(normalize_title(&"Fix login bug".to_string()), "Fix-login-bug");
}

#[test]
fn normalize_empty_and_all_nonword() {
    assert_eq!(normalize_title(&"".to_string()), "");
    assert_eq!(normalize_title(&"()!! ".to_string()), "");
    assert_eq!(normalize_title(&"a".to_string()), "a");
}

#[test]
fn normalize_keeps_word_runs() {
    assert_eq!(normalize_title(&"h\u{e9}llo w\u{f6}rld".to_string()), "h-llo-w-rld");
    assert_eq!(normalize_title(&"--a--b--".to_string()), "a-b");
}

#[test]
fn bump_unversioned_name() {
    assert_eq!(bump_branch("test_branch".to_string()), "test_branch.v1");
}

#[test]
fn bump_unversioned_name_with_dot() {
    assert_eq!(bump_branch("test.branch".to_string()), "test-branch.v1");
}

#[test]
fn bump_versioned_name() {
    assert_eq!(bump_branch("test_branch.v1".to_string()), "test_branch.v2");
}

#[test]
fn bump_versioned_name_with_nonword() {
    assert_eq!(bump_branch("(test)branch.v1".to_string()), "test-branch.v2");
}

#[test]
fn bump_versioned_name_with_dot() {
    assert_eq!(bump_branch("test.branch.v1".to_string()), "test.branch.v2");
}

#[test]
fn bump_carries_into_two_digits() {
    assert_eq!(bump_branch("a.v9".to_string()), "a.v10");
}

#[test]
fn bump_last_segment_without_version_suffix() {
    assert_eq!(bump_branch("a.v1x".to_string()), "a-v1x.v1");
}

#[test]
fn bump_keeps_empty_segments_of_versioned_names() {
    assert_eq!(bump_branch("a..b.v1".to_string()), "a..b.v2");
}

#[test]
fn bump_treats_single_version_like_segment_as_unversioned() {
    assert_eq!(bump_branch("v1".to_string()), "v1.v1");
}

#[test]
fn bump_collapses_leading_zeros_of_the_version() {
    assert_eq!(bump_branch("x.v01".to_string()), "x.v2");
}

#[test]
fn bump_checked_agrees_with_bump() {
    assert_eq!(bump_branch_checked("x.v2"), Ok("x.v3".to_string()));
    assert_eq!(bump_branch_checked("plain"), Ok("plain.v1".to_string()));
}

#[test]
fn bump_checked_rejects_version_overflow() {
    assert_eq!(
        bump_branch_checked("b.v18446744073709551615"),
        Err("version number does not fit in 64 bits".to_string())
    );
}

#[test]
fn bump_checked_accepts_near_largest_version() {
    assert_eq!(
        bump_branch_checked("b.v18446744073709551614"),
        Ok("b.v18446744073709551615".to_string())
    );
}
