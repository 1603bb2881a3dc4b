use grep_rust::config::{parse_usize, Config};

#[test]
fn test_config_defaults() {
    let args = vec!["grep-rust", "test_query", "test_file.txt"];
    let config = Config::parse_from(args);
    assert_eq!(config.query, "test_query");
    assert_eq!(config.file_path, "test_file.txt");
    assert!(!config.ignore_case);
    assert!(!config.line_number);
    assert_eq!(config.before_context, None);
    assert_eq!(config.after_context, None);
}

#[test]
fn test_config_with_flags() {
    let args = vec![
        "grep-rust",
        "-i",
        "-l",
        "-B",
        "2",
        "-A",
        "3",
        "pattern",
        "file.log",
    ];
    let config = Config::parse_from(args);
    assert_eq!(config.query, "pattern");
    assert_eq!(config.file_path, "file.log");
    assert!(config.ignore_case);
    assert!(config.line_number);
    assert_eq!(config.before_context, Some(2));
    assert_eq!(config.after_context, Some(3));
}

#[test]
fn test_config_with_word_regexp() {
    let args = vec!["grep-rust", "-w", "word", "file.txt"];
    let config = Config::parse_from(args);
    assert!(config.word_regexp);
    assert_eq!(config.query, "word");
}

#[test]
fn test_config_long_flags() {
    let args = vec![
        "grep-rust",
        "--ignore-case",
        "--line-number",
        "--word-regexp",
        "--before-context",
        "4",
        "--after-context",
        "0",
        "q",
        "f.txt",
    ];
    let config = Config::parse_from(args);
    assert!(config.ignore_case);
    assert!(config.line_number);
    assert!(config.word_regexp);
    assert_eq!(config.before_context, Some(4));
    assert_eq!(config.after_context, Some(0));
}

#[test]
fn test_try_parse_rejects_unknown_flag() {
    let args = vec!["grep-rust", "-z", "q", "f.txt"];
    assert!(Config::try_parse_from(&args).is_none());
}

#[test]
fn test_try_parse_rejects_missing_positional() {
    let args = vec!["grep-rust", "only_query"];
    assert!(Config::try_parse_from(&args).is_none());
}

#[test]
fn test_try_parse_rejects_extra_positional() {
    let args = vec!["grep-rust", "a", "b", "c"];
    assert!(Config::try_parse_from(&args).is_none());
}

#[test]
fn test_try_parse_rejects_bad_context_value() {
    let args = vec!["grep-rust", "-B", "two", "q", "f.txt"];
    assert!(Config::try_parse_from(&args).is_none());
    let args = vec!["grep-rust", "-A"];
    assert!(Config::try_parse_from(&args).is_none());
}

#[test]
fn test_parse_usize_values() {
    assert_eq!(parse_usize("0"), Some(0));
    assert_eq!(parse_usize("405"), Some(405));
    assert_eq!(parse_usize(""), None);
    assert_eq!(parse_usize("12x"), None);
    assert_eq!(parse_usize("-3"), None);
    assert_eq!(parse_usize("99999999999999999999999999999"), None);
}
