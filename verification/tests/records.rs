use reverr::records::process_lines;
use reverr::records::Reorderer;

fn lines(items: &[&str]) -> Vec<String> {
    items.iter().map(|s| s.to_string()).collect()
}

const RULE: &str = "------------------------------------------------------------";

#[test]
fn two_closed_records_replayed_in_reverse() {
    let input = lines(&["Error one", " detail one", "", "Error two", " detail two", ""]);
    let (live, replay) = process_lines(&input);
    assert_eq!(live, lines(&["Error one", "Error two"]));
    assert_eq!(
        replay,
        lines(&[RULE, "Error two", " detail two", "", "Error one", " detail one", ""])
    );
}

#[test]
fn trailing_open_record_appended_without_reversal() {
    let input = lines(&["Error one", "", "Error two", " unfinished"]);
    let (live, replay) = process_lines(&input);
    assert_eq!(live, lines(&["Error one", "Error two"]));
    assert_eq!(replay, lines(&[RULE, "Error one", "", "Error two", " unfinished"]));
}

#[test]
fn no_closed_record_prints_nothing_at_end() {
    let input = lines(&["Error one", " detail one"]);
    let (live, replay) = process_lines(&input);
    assert_eq!(live, lines(&["Error one"]));
    assert_eq!(replay, lines(&[]));
}

#[test]
fn empty_input_yields_no_output() {
    let (live, replay) = process_lines(&lines(&[]));
    assert_eq!(live, lines(&[]));
    assert_eq!(replay, lines(&[]));
}

#[test]
fn blank_line_without_open_record_is_ignored() {
    let input = lines(&["", "", "Error one", ""]);
    let (live, replay) = process_lines(&input);
    assert_eq!(live, lines(&["Error one"]));
    assert_eq!(replay, lines(&[RULE, "Error one", ""]));
}

#[test]
fn continuation_opening_a_record_is_echoed() {
    let input = lines(&["  indented start", " more", "", "Error one", ""]);
    let (live, replay) = process_lines(&input);
    assert_eq!(live, lines(&["  indented start", "Error one"]));
    assert_eq!(
        replay,
        lines(&[RULE, "Error one", "", "  indented start", " more", ""])
    );
}

#[test]
fn title_mid_record_joins_open_record() {
    let input = lines(&["Error one", "note: hint", "", "Error two", ""]);
    let (live, replay) = process_lines(&input);
    assert_eq!(live, lines(&["Error one", "note: hint", "Error two"]));
    assert_eq!(
        replay,
        lines(&[RULE, "Error two", "", "Error one", "note: hint", ""])
    );
}

#[test]
fn classification_uses_stripped_line() {
    // The first line is blank once its escape sequence is stripped, so it
    // separates records; the second keeps its color codes in the output.
    let input = lines(&["Error one", "\x1b[0m", "\x1b[1mError two\x1b[0m", ""]);
    let (live, replay) = process_lines(&input);
    assert_eq!(live, lines(&["Error one", "\x1b[1mError two\x1b[0m"]));
    assert_eq!(
        replay,
        lines(&[RULE, "\x1b[1mError two\x1b[0m", "", "Error one", ""])
    );
}

#[test]
fn reorderer_streams_like_the_batch_run() {
    let input = lines(&["Error one", " detail one", "", "Error two", " detail two"]);
    let mut machine = Reorderer::new();
    let mut live: Vec<String> = Vec::new();
    for line in &input {
        if machine.push_line(line.clone()) {
            live.push(line.clone());
        }
    }
    let replay = machine.finish();
    let (batch_live, batch_replay) = process_lines(&input);
    assert_eq!(live, batch_live);
    assert_eq!(replay, batch_replay);
    assert_eq!(replay, lines(&[RULE, "Error one", " detail one", "", "Error two", " detail two"]));
}
