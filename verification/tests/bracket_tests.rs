use transform::RegexTransforms;

#[test]
fn single_bracket_group_is_unchanged() {
    assert_eq!(
        RegexTransforms::join_bracketed_data("Foo [x264].mkv"),
        "Foo [x264].mkv"
    );
}

#[test]
fn adjacent_bracket_groups_merge() {
    assert_eq!(
        RegexTransforms::join_bracketed_data("Foo [x264] [1080p].mkv"),
        "Foo [x264 1080p].mkv"
    );
}

#[test]
fn three_bracket_groups_merge_into_one() {
    assert_eq!(
        RegexTransforms::join_bracketed_data("[a][b] [c] tail"),
        "[a b c]tail"
    );
}

#[test]
fn white_space_after_a_run_is_consumed() {
    assert_eq!(RegexTransforms::join_bracketed_data("[a] [b] x"), "[a b]x");
}

#[test]
fn empty_groups_contribute_nothing() {
    assert_eq!(RegexTransforms::join_bracketed_data("[][]"), "[]");
    // The optional white space after the run's last group is part of the
    // run, so the space before `y` is consumed.
    assert_eq!(RegexTransforms::join_bracketed_data("x [a][] y"), "x [a]y");
}

#[test]
fn nesting_is_not_supported() {
    // The first `]` closes a group, so `[a[b]` is one group with text `a[b`.
    assert_eq!(RegexTransforms::join_bracketed_data("[a[b][c]"), "[a[b c]");
}

#[test]
fn unclosed_bracket_is_left_alone() {
    assert_eq!(RegexTransforms::join_bracketed_data("[a] [b"), "[a] [b");
    assert_eq!(RegexTransforms::join_bracketed_data("no brackets"), "no brackets");
}

#[test]
fn separate_runs_merge_independently() {
    assert_eq!(
        RegexTransforms::join_bracketed_data("[a][b] x [c][d]"),
        "[a b]x [c d]"
    );
}

#[test]
fn trailing_white_space_inside_groups_is_trimmed() {
    assert_eq!(RegexTransforms::join_bracketed_data("[x ][y ]"), "[x  y]");
}
