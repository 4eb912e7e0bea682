use reverr::strip::trim_line;

#[test]
fn trim_line_empty() {
    assert_eq!(trim_line(""), "");
}

#[test]
fn trim_line_trimmed() {
    assert_eq!(trim_line("abc"), "abc");
}

#[test]
fn trim_line_begin() {
    assert_eq!(trim_line("\x1babcmmdef"), "mdef");
}

#[test]
fn trim_line_end() {
    assert_eq!(trim_line("abcm\x1bdefm"), "abcm");
}

#[test]
fn trim_line_two_sequences() {
    assert_eq!(trim_line("abc\x1bdefmgh\x1bimjk"), "abcghjk");
}

#[test]
fn trim_line_no_escape_unchanged() {
    assert_eq!(trim_line("warning: unused variable `x`"), "warning: unused variable `x`");
    assert_eq!(trim_line("m m m"), "m m m");
}

#[test]
fn trim_line_idempotent() {
    let once = trim_line("abc\x1bdefmgh\x1bim");
    assert_eq!(trim_line(&once), once);
}

#[test]
fn trim_line_unterminated_sequence() {
    assert_eq!(trim_line("abc\x1bdef"), "abc");
}

#[test]
fn trim_line_double_escape_single_exit() {
    assert_eq!(trim_line("a\x1bb\x1bcmde"), "ade");
}

#[test]
fn trim_line_only_escape() {
    assert_eq!(trim_line("\x1b"), "");
    assert_eq!(trim_line("\x1bm"), "");
}
