use mcp_supervisor::environment::filter_env_overrides;
use mcp_supervisor::environment::parse_environment_variables;

fn pairs(v: &[(&str, &str)]) -> Vec<(String, String)> {
    v.iter().map(|(k, val)| (k.to_string(), val.to_string())).collect()
}

#[test]
fn parses_keys_values_comments_and_bad_lines() {
    let parsed = parse_environment_variables("FOO=bar\n# comment\n\nBAZ=\nBADLINE\nKEY = value ");
    assert_eq!(parsed, pairs(&[("FOO", "bar"), ("BAZ", ""), ("KEY", "value")]));
}

#[test]
fn supervisor_filter_drops_blank_values() {
    let parsed = parse_environment_variables("FOO=bar\nBAZ=\nPAD=   \nKEY = value ");
    let kept = filter_env_overrides(parsed);
    assert_eq!(kept, pairs(&[("FOO", "bar"), ("KEY", "value")]));
}

#[test]
fn empty_text_yields_no_pairs() {
    assert_eq!(parse_environment_variables(""), pairs(&[]));
}

#[test]
fn last_line_needs_no_newline() {
    assert_eq!(parse_environment_variables("A=1"), pairs(&[("A", "1")]));
}

#[test]
fn empty_key_is_dropped() {
    assert_eq!(parse_environment_variables("=value\n =x"), pairs(&[]));
}

#[test]
fn value_may_contain_equals_signs() {
    assert_eq!(parse_environment_variables("K=a=b"), pairs(&[("K", "a=b")]));
}

#[test]
fn indented_comment_and_crlf_lines() {
    let parsed = parse_environment_variables("  # note\r\nA = 1\r\nB=2\r\n");
    assert_eq!(parsed, pairs(&[("A", "1"), ("B", "2")]));
}

#[test]
fn empty_value_is_kept_by_the_parser() {
    // Distinct from omitting the key: only the supervisor-level filter
    // drops it.
    assert_eq!(parse_environment_variables("BAZ="), pairs(&[("BAZ", "")]));
}

#[test]
fn filter_keeps_pairs_unchanged_and_in_order() {
    let kept = filter_env_overrides(pairs(&[("B", "2"), ("A", " spaced "), ("Z", "\t")]));
    assert_eq!(kept, pairs(&[("B", "2"), ("A", " spaced ")]));
}
