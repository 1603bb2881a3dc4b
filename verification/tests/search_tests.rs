use grep_rust::config::Config;
use grep_rust::engine::{run_search, Emission, GrepState};
use grep_rust::format::{format_plain_line, search_info_text, usize_to_string};
use grep_rust::matcher::{contains_substring, Matcher, SearchError};

fn config_for(query: &str, before: Option<usize>, after: Option<usize>) -> Config {
    Config {
        query: query.to_string(),
        file_path: "file.txt".to_string(),
        ignore_case: false,
        line_number: false,
        word_regexp: false,
        before_context: before,
        after_context: after,
    }
}

fn lines_of(v: &[&str]) -> Vec<String> {
    v.iter().map(|s| s.to_string()).collect()
}

#[test]
fn scenario_match_with_context() {
    let config = config_for("an", Some(1), Some(1));
    let lines = lines_of(&["apple", "banana", "cherry", "date"]);
    let out = run_search(&config, &lines).unwrap();
    assert_eq!(out.len(), 3);
    assert_eq!(out[0], Emission::Plain { line_num: 1, text: "apple".to_string() });
    assert_eq!(
        out[1],
        Emission::Matched {
            line_num: 2,
            text: "banana".to_string(),
            spans: vec![(1, 3), (3, 5)],
        }
    );
    assert_eq!(out[2], Emission::Plain { line_num: 3, text: "cherry".to_string() });
}

#[test]
fn scenario_no_match_emits_nothing() {
    let config = config_for("xyz", Some(1), Some(1));
    let lines = lines_of(&["apple", "banana", "cherry", "date"]);
    let out = run_search(&config, &lines).unwrap();
    assert!(out.is_empty());
}

#[test]
fn scenario_whole_word_match() {
    let mut config = config_for("a", None, None);
    config.word_regexp = true;
    let lines = lines_of(&["a cat sat"]);
    let out = run_search(&config, &lines).unwrap();
    assert_eq!(out.len(), 1);
    assert_eq!(
        out[0],
        Emission::Matched { line_num: 1, text: "a cat sat".to_string(), spans: vec![(0, 1)] }
    );
}

#[test]
fn scenario_adjacent_matches_refresh_after_context() {
    let config = config_for("match", None, Some(2));
    let lines = lines_of(&["l1", "l2", "match3", "match4", "l5", "l6", "l7"]);
    let out = run_search(&config, &lines).unwrap();
    assert_eq!(out.len(), 4);
    assert_eq!(
        out[0],
        Emission::Matched { line_num: 3, text: "match3".to_string(), spans: vec![(0, 5)] }
    );
    assert_eq!(
        out[1],
        Emission::Matched { line_num: 4, text: "match4".to_string(), spans: vec![(0, 5)] }
    );
    assert_eq!(out[2], Emission::Plain { line_num: 5, text: "l5".to_string() });
    assert_eq!(out[3], Emission::Plain { line_num: 6, text: "l6".to_string() });
}

#[test]
fn before_context_bounded_by_available_lines() {
    let config = config_for("needle", Some(3), None);
    let lines = lines_of(&["only", "needle here"]);
    let out = run_search(&config, &lines).unwrap();
    assert_eq!(out.len(), 2);
    assert_eq!(out[0], Emission::Plain { line_num: 1, text: "only".to_string() });
    assert_eq!(
        out[1],
        Emission::Matched {
            line_num: 2,
            text: "needle here".to_string(),
            spans: vec![(0, 6)],
        }
    );
}

#[test]
fn after_context_line_not_repeated_as_before_context() {
    // The line after the first match is printed as after-context; the next
    // match must not flush it again as before-context.
    let config = config_for("hit", Some(2), Some(1));
    let lines = lines_of(&["hit one", "between", "hit two"]);
    let out = run_search(&config, &lines).unwrap();
    assert_eq!(out.len(), 3);
    assert_eq!(
        out[0],
        Emission::Matched { line_num: 1, text: "hit one".to_string(), spans: vec![(0, 3)] }
    );
    assert_eq!(out[1], Emission::Plain { line_num: 2, text: "between".to_string() });
    assert_eq!(
        out[2],
        Emission::Matched { line_num: 3, text: "hit two".to_string(), spans: vec![(0, 3)] }
    );
}

#[test]
fn search_is_deterministic_across_runs() {
    let config = config_for("an", Some(2), Some(2));
    let lines = lines_of(&["apple", "banana", "cherry", "date", "mango", "fig"]);
    let first = run_search(&config, &lines).unwrap();
    let second = run_search(&config, &lines).unwrap();
    assert_eq!(first, second);
}

#[test]
fn literal_metacharacters_are_escaped() {
    let config = config_for("a.c", None, None);
    let lines = lines_of(&["abc", "a.c"]);
    let out = run_search(&config, &lines).unwrap();
    assert_eq!(out.len(), 1);
    assert_eq!(
        out[0],
        Emission::Matched { line_num: 2, text: "a.c".to_string(), spans: vec![(0, 3)] }
    );
}

#[test]
fn literal_matching_agrees_with_substring_search() {
    let queries = ["an", "apple", "xyz", "", "a.c"];
    let lines = ["banana", "apple pie", "a.c", "ananas", ""];
    for q in queries {
        let matcher = Matcher::new(q, false, false).unwrap();
        for l in lines {
            assert_eq!(matcher.matches(l), contains_substring(q, l), "{q} vs {l}");
        }
    }
}

#[test]
fn case_insensitive_matching() {
    let mut config = config_for("AN", None, None);
    config.ignore_case = true;
    let lines = lines_of(&["banana", "BANANA", "none"]);
    let out = run_search(&config, &lines).unwrap();
    assert_eq!(out.len(), 2);
    match &out[0] {
        Emission::Matched { line_num, spans, .. } => {
            assert_eq!(*line_num, 1);
            assert_eq!(spans, &vec![(1, 3), (3, 5)]);
        }
        other => panic!("expected a match, got {other:?}"),
    }
}

#[test]
fn oversized_pattern_is_rejected() {
    let huge = "a".repeat(16_000_000);
    let r = Matcher::new(&huge, false, false);
    assert!(matches!(r, Err(SearchError::InvalidPattern)));
}

#[test]
fn streaming_state_machine_matches_run() {
    let config = config_for("b", Some(1), Some(1));
    let lines = lines_of(&["a1", "b2", "c3"]);
    let expected = run_search(&config, &lines).unwrap();
    let matcher = Matcher::new("b", false, false).unwrap();
    let mut state = GrepState::new();
    let mut streamed = Vec::new();
    for line in lines {
        streamed.extend(state.process_line(&matcher, line, 1, 1));
    }
    assert_eq!(streamed, expected);
}

#[test]
fn plain_line_formatting() {
    assert_eq!(format_plain_line(3, "hello", true), "3:  hello");
    assert_eq!(format_plain_line(3, "hello", false), "hello");
    assert_eq!(usize_to_string(0), "0");
    assert_eq!(usize_to_string(405), "405");
}

#[test]
fn banner_mentions_only_active_options() {
    let mut config = config_for("pat", Some(2), None);
    config.ignore_case = true;
    let banner = search_info_text(&config, 2, 0);
    assert_eq!(
        banner,
        "Searching for 'pat' in file 'file.txt'...\n(Case-insensitive search)\n(Context before: 2 lines)"
    );
    let plain = config_for("pat", None, None);
    assert_eq!(search_info_text(&plain, 0, 0), "Searching for 'pat' in file 'file.txt'...");
}
