//! Tests of the highlighting engine: single rules, cascades, the default
//! rule table, and the engine's error reports.

use log_highlight::highlighter::{
    check_spans_from, sink_step, wrap_targets, HighlightError, Highlighter, SinkDecision,
    SinkEvent,
};
use log_highlight::rule::{Rule, Rules};

const RESET: &str = "\u{1b}[0m";
const RED: &str = "\u{1b}[1;31m";

fn rule(pattern: &str, color: &str) -> Rule {
    Rule { pattern: pattern.as_bytes().to_vec(), color: color.as_bytes().to_vec() }
}

fn run_one(rules: Vec<Rule>, line: &str) -> String {
    let h = Highlighter::new(rules).expect("rules compile");
    let out = h.highlight_line(&line.as_bytes().to_vec()).expect("line highlights");
    String::from_utf8(out).expect("output is text")
}

/// Removes every escape sequence (ESC up to and including the final `m`).
fn strip_escapes(s: &str) -> String {
    let mut out = String::new();
    let mut in_escape = false;
    for c in s.chars() {
        if in_escape {
            if c == 'm' {
                in_escape = false;
            }
        } else if c == '\u{1b}' {
            in_escape = true;
        } else {
            out.push(c);
        }
    }
    out
}

#[test]
fn anchored_number_is_wrapped_exactly() {
    let out = run_one(vec![rule("(^)([0-9]+)($)", RED)], "42");
    assert_eq!(out, format!("{}42{}", RED, RESET));
}

#[test]
fn no_match_passes_line_through() {
    let out = run_one(vec![rule("(^)(zzz)($)", RED)], "hello world");
    assert_eq!(out, "hello world");
}

#[test]
fn several_matches_keep_context() {
    let out = run_one(vec![rule("()([0-9]+)()", RED)], "a1b22c");
    assert_eq!(out, format!("a{}1{}b{}22{}c", RED, RESET, RED, RESET));
    assert_eq!(strip_escapes(&out), "a1b22c");
}

#[test]
fn empty_line_stays_empty() {
    let out = run_one(vec![rule("()([0-9]+)()", RED)], "");
    assert_eq!(out, "");
}

#[test]
fn head_and_tail_are_not_colorized() {
    let out = run_one(vec![rule("(a)(b)(c)", RED)], "abc");
    assert_eq!(out, format!("a{}b{}c", RED, RESET));
}

#[test]
fn rule_order_matters() {
    let yellow = "\u{1b}[1;33m";
    let a = rule("()(ab)()", RED);
    let b = rule("()(b)()", yellow);
    let ab_first = run_one(vec![rule("()(ab)()", RED), rule("()(b)()", yellow)], "ab");
    let b_first = run_one(vec![b, a], "ab");
    assert_ne!(ab_first, b_first);
    // The earlier rule's output is the later rule's input: applying the
    // `b` rule second finds the `b` inside the already wrapped `ab`.
    assert_eq!(ab_first, format!("{}a{}b{}{}", RED, yellow, RESET, RESET));
    assert_eq!(b_first, format!("a{}b{}", yellow, RESET));
}

#[test]
fn default_rules_highlight_a_log_line() {
    let rules = Rules::new("").expect("default rules load");
    assert_eq!(rules.rules.len(), 33);
    let h = Highlighter::new(rules.rules).expect("default rules compile");
    let line = "2024-01-02 12:00:00 INFO started";
    let out = String::from_utf8(h.highlight_line(&line.as_bytes().to_vec()).unwrap()).unwrap();
    let cadetblue = "\u{1b}[0;38;05;73m";
    let salmon = "\u{1b}[0;38;05;209m";
    let lightcyan = "\u{1b}[0;38;05;195m";
    assert!(out.contains(&format!("{}2024-01-02{}", cadetblue, RESET)));
    assert!(out.contains(&format!("{}12:00:00{}", salmon, RESET)));
    assert!(out.contains(&format!("{}started{}", lightcyan, RESET)));
    assert!(out.contains(" INFO "));
    assert_eq!(strip_escapes(&out), line);
}

#[test]
fn default_rules_highlight_severity_and_result() {
    let rules = Rules::new("").expect("default rules load");
    let h = Highlighter::new(rules.rules).expect("default rules compile");
    let line = "error: connect failed";
    let out = String::from_utf8(h.highlight_line(&line.as_bytes().to_vec()).unwrap()).unwrap();
    assert!(out.contains(&format!("{}error{}: connect ", RED, RESET)));
    assert!(out.contains(&format!("{}failed{}", RED, RESET)));
    assert_eq!(strip_escapes(&out), line);
}

#[test]
fn malformed_pattern_fails_compilation() {
    let r = Highlighter::new(vec![rule("($HEAD)((", RED)]);
    assert!(matches!(r, Err(HighlightError::Pattern { index: 0, .. })));
}

#[test]
fn later_malformed_pattern_names_its_rule() {
    let r = Highlighter::new(vec![rule("()(a)()", RED), rule("([)", RED)]);
    assert!(matches!(r, Err(HighlightError::Pattern { index: 1, .. })));
}

#[test]
fn pattern_without_target_group_is_reported() {
    let h = Highlighter::new(vec![rule("[0-9]+", RED)]).expect("compiles");
    let r = h.highlight_line(&b"a 42".to_vec());
    assert!(matches!(r, Err(HighlightError::MissingTarget)));
}

#[test]
fn overlapping_targets_are_reported() {
    let h = Highlighter::new(vec![rule("(?=()(..))(.)", RED)]).expect("compiles");
    let r = h.highlight_line(&b"abc".to_vec());
    assert!(matches!(r, Err(HighlightError::OverlappingTargets)));
}

#[test]
fn target_splitting_a_character_is_an_encoding_error() {
    let h = Highlighter::new(vec![rule("()(\\xc3)()", RED)]).expect("compiles");
    let r = h.highlight_line(&"é".as_bytes().to_vec());
    assert!(matches!(r, Err(HighlightError::Encoding)));
}

#[test]
fn zero_length_target_still_wraps() {
    let out = run_one(vec![rule("(a)()(c)", RED)], "ac");
    assert_eq!(out, format!("a{}{}c", RED, RESET));
}

#[test]
fn span_chains_are_checked() {
    let ordered = vec![(1usize, 2usize), (2, 4)];
    assert!(check_spans_from(&ordered, 0, 0, 5));
    let overlapping = vec![(0usize, 2usize), (1, 3)];
    assert!(!check_spans_from(&overlapping, 0, 0, 5));
    let out_of_bounds = vec![(0usize, 9usize)];
    assert!(!check_spans_from(&out_of_bounds, 0, 0, 5));
}

#[test]
fn wrap_targets_builds_the_exact_buffer() {
    let line = b"xxabyy".to_vec();
    let spans = vec![(2usize, 4usize)];
    let color = RED.as_bytes().to_vec();
    let out = wrap_targets(&line, &spans, &color);
    assert_eq!(out, format!("xx{}ab{}yy", RED, RESET).into_bytes());
}

#[test]
fn closed_sink_finishes_successfully() {
    assert!(matches!(sink_step(&SinkEvent::Closed), SinkDecision::FinishSuccess));
}

#[test]
fn written_line_proceeds() {
    assert!(matches!(sink_step(&SinkEvent::Written), SinkDecision::Proceed));
}

#[test]
fn failed_write_aborts() {
    assert!(matches!(sink_step(&SinkEvent::Failed), SinkDecision::Abort));
}
