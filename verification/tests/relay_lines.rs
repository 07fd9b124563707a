use mcp_supervisor::relay::OutputLine;
use mcp_supervisor::relay::Severity;
use mcp_supervisor::relay::relay_decoded;
use mcp_supervisor::relay::relay_text;

fn texts(lines: &[OutputLine]) -> Vec<&str> {
    lines.iter().map(|l| l.text.as_str()).collect()
}

#[test]
fn stdout_lines_arrive_in_source_order() {
    let out = relay_text(Severity::Info, "a\nb\nc\n");
    assert_eq!(texts(&out), vec!["a", "b", "c"]);
    assert!(out.iter().all(|l| l.severity == Severity::Info));
}

#[test]
fn stderr_lines_carry_the_error_severity() {
    let out = relay_text(Severity::Error, "boom\n");
    assert_eq!(out.len(), 1);
    assert_eq!(out[0].severity, Severity::Error);
    assert_eq!(out[0].text, "boom");
}

#[test]
fn carriage_returns_are_stripped_with_the_line_feed() {
    let out = relay_text(Severity::Info, "x\r\ny\r\n");
    assert_eq!(texts(&out), vec!["x", "y"]);
}

#[test]
fn empty_stream_relays_nothing() {
    assert!(relay_text(Severity::Info, "").is_empty());
}

#[test]
fn lone_newline_is_one_empty_line() {
    assert_eq!(texts(&relay_text(Severity::Info, "\n")), vec![""]);
}

#[test]
fn final_line_without_terminator_is_relayed() {
    assert_eq!(texts(&relay_text(Severity::Info, "a\nb")), vec!["a", "b"]);
}

#[test]
fn undecodable_lines_are_skipped_without_aborting() {
    let out = relay_decoded(
        Severity::Info,
        vec![Some("a".to_string()), None, Some("b".to_string()), None],
    );
    assert_eq!(texts(&out), vec!["a", "b"]);
}

#[test]
fn decoded_lines_keep_their_order() {
    let out = relay_decoded(
        Severity::Error,
        vec![Some("1".to_string()), Some("2".to_string()), Some("3".to_string())],
    );
    assert_eq!(texts(&out), vec!["1", "2", "3"]);
    assert!(out.iter().all(|l| l.severity == Severity::Error));
}
