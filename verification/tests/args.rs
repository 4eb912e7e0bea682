use reverr::args::rewrite_args;

fn argv(items: &[&str]) -> Vec<String> {
    items.iter().map(|s| s.to_string()).collect()
}

#[test]
fn plain_build_gets_color_appended() {
    assert_eq!(rewrite_args(&argv(&["build"])), argv(&["build", "--color=always"]));
}

#[test]
fn test_with_separator_gets_color_on_both_sides() {
    assert_eq!(
        rewrite_args(&argv(&["test", "--", "foo"])),
        argv(&["test", "--color=always", "--", "foo", "--color=always"])
    );
}

#[test]
fn test_without_separator_gets_separator_and_both_flags() {
    assert_eq!(
        rewrite_args(&argv(&["test"])),
        argv(&["test", "--color=always", "--", "--color=always"])
    );
}

#[test]
fn existing_color_flag_before_separator_suppresses_injection() {
    assert_eq!(
        rewrite_args(&argv(&["test", "--color=never", "--", "foo"])),
        argv(&["test", "--color=never", "--", "foo", "--color=always"])
    );
}

#[test]
fn empty_arguments_still_force_color() {
    assert_eq!(rewrite_args(&argv(&[])), argv(&["--color=always"]));
}

#[test]
fn short_test_token_counts_as_test() {
    assert_eq!(
        rewrite_args(&argv(&["t"])),
        argv(&["t", "--color=always", "--", "--color=always"])
    );
}

#[test]
fn build_with_existing_color_flag_is_unchanged() {
    assert_eq!(
        rewrite_args(&argv(&["build", "--color=never"])),
        argv(&["build", "--color=never"])
    );
}

#[test]
fn build_with_separator_gets_color_before_it() {
    assert_eq!(
        rewrite_args(&argv(&["build", "--", "x"])),
        argv(&["build", "--color=always", "--", "x"])
    );
}

#[test]
fn test_with_empty_trailing_segment() {
    assert_eq!(
        rewrite_args(&argv(&["test", "--"])),
        argv(&["test", "--color=always", "--", "--color=always"])
    );
}

#[test]
fn color_flag_after_separator_suppresses_repeated_flag() {
    assert_eq!(
        rewrite_args(&argv(&["test", "--", "--color=never"])),
        argv(&["test", "--color=always", "--", "--color=never"])
    );
}

#[test]
fn test_token_after_separator_is_not_a_subcommand() {
    assert_eq!(
        rewrite_args(&argv(&["build", "--", "test"])),
        argv(&["build", "--color=always", "--", "test"])
    );
}

#[test]
fn color_prefix_match_not_exact_match() {
    // Any argument starting with the seven-character prefix counts.
    assert_eq!(
        rewrite_args(&argv(&["build", "--colors"])),
        argv(&["build", "--colors"])
    );
    // A shorter argument does not.
    assert_eq!(
        rewrite_args(&argv(&["build", "--colo"])),
        argv(&["build", "--colo", "--color=always"])
    );
}

#[test]
fn arguments_forwarded_in_original_order() {
    assert_eq!(
        rewrite_args(&argv(&["build", "--release", "-p", "core"])),
        argv(&["build", "--release", "-p", "core", "--color=always"])
    );
}
