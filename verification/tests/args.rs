use metricslib::args::parse_args;

fn strings(parts: &[&str]) -> Vec<String> {
    parts.iter().map(|s| s.to_string()).collect()
}

#[test]
fn test_parse_all_flags() {
    let args = strings(&["prog", "--test", "data.txt", "--scores", "pred.txt", "--positive", "1"]);
    let parsed = parse_args(&args).unwrap();
    assert_eq!(parsed.test.as_deref(), Some("data.txt"));
    assert_eq!(parsed.scores.as_deref(), Some("pred.txt"));
    assert_eq!(parsed.positive.as_deref(), Some("1"));
    assert!(!parsed.help);
}

#[test]
fn test_parse_help() {
    let args = strings(&["prog", "--help"]);
    let parsed = parse_args(&args).unwrap();
    assert!(parsed.help);
    assert!(parsed.test.is_none());
    assert!(parsed.scores.is_none());
    assert!(parsed.positive.is_none());
}

#[test]
fn test_parse_unknown_flag() {
    let args = strings(&["prog", "--verbose"]);
    assert!(parse_args(&args).is_none());
}

#[test]
fn test_parse_no_arguments() {
    let args = strings(&["prog"]);
    assert!(parse_args(&args).is_none());
}

#[test]
fn test_parse_repeated_flag_keeps_last() {
    let args = strings(&["prog", "--test", "first.txt", "--test", "second.txt"]);
    let parsed = parse_args(&args).unwrap();
    assert_eq!(parsed.test.as_deref(), Some("second.txt"));
}

#[test]
fn test_parse_help_between_flags() {
    let args = strings(&["prog", "--test", "a", "--help", "--positive", "yes"]);
    let parsed = parse_args(&args).unwrap();
    assert!(parsed.help);
    assert_eq!(parsed.test.as_deref(), Some("a"));
    assert_eq!(parsed.positive.as_deref(), Some("yes"));
    assert!(parsed.scores.is_none());
}
