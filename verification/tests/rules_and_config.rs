//! Tests of rule-document loading, placeholder substitution, and the
//! command-line reader.

use log_highlight::config::{Config, ConfigError};
use log_highlight::rule::{Rule, RuleLoadError, Rules, load_rules_from_string, resolve_rules};
use log_highlight::textsub::{replace_first, substitute_all};

fn b(s: &str) -> Vec<u8> {
    s.as_bytes().to_vec()
}

#[test]
fn replace_first_replaces_only_the_first_occurrence() {
    assert_eq!(replace_first(&b("abcabc"), &b("b"), &b("XY")), b("aXYcabc"));
}

#[test]
fn replace_first_without_occurrence_changes_nothing() {
    assert_eq!(replace_first(&b("abc"), &b("zz"), &b("XY")), b("abc"));
}

#[test]
fn replace_first_with_empty_needle_prepends() {
    assert_eq!(replace_first(&b("abc"), &b(""), &b("XY")), b("XYabc"));
}

#[test]
fn substitute_all_applies_pairs_in_order() {
    let pairs = vec![(b("$A"), b("1$B")), (b("$B"), b("2"))];
    assert_eq!(substitute_all(&b("x$Ay"), &pairs), b("x12y"));
}

#[test]
fn resolve_rules_substitutes_patterns_and_colors() {
    let raw = vec![(b("($HEAD)(x)($TAIL)"), b("$RED"))];
    let patterns = vec![(b("$HEAD"), b("^")), (b("$TAIL"), b("$"))];
    let colors = vec![(b("$RED"), b("\u{1b}[1;31m"))];
    let rules = resolve_rules(&raw, &patterns, &colors);
    assert_eq!(rules.len(), 1);
    assert_eq!(rules[0].pattern, b("(^)(x)($)"));
    assert_eq!(rules[0].color, b("\u{1b}[1;31m"));
}

#[test]
fn a_small_document_loads() {
    let text = "[[rules]]\npattern = '($H)(a)()'\ncolor = '$C'\n\n[patterns]\n'$H' = '^'\n\n[colors]\n'$C' = 'red'\n";
    let rules = load_rules_from_string(text).expect("document loads");
    assert_eq!(rules.len(), 1);
    assert_eq!(rules[0].pattern, b("(^)(a)()"));
    assert_eq!(rules[0].color, b("red"));
}

#[test]
fn invalid_toml_is_reported() {
    let r = load_rules_from_string("this is not toml = = =");
    assert!(matches!(r, Err(RuleLoadError::Toml { .. })));
}

#[test]
fn missing_rules_array_is_reported() {
    let r = load_rules_from_string("[patterns]\n[colors]\n");
    assert!(matches!(r, Err(RuleLoadError::MissingRules)));
}

#[test]
fn rule_entry_without_color_is_reported() {
    let r = load_rules_from_string("[[rules]]\npattern = '()(a)()'\n\n[patterns]\n[colors]\n");
    assert!(matches!(r, Err(RuleLoadError::BadRuleEntry { index: 0 })));
}

#[test]
fn rule_entry_with_non_string_pattern_is_reported() {
    let r = load_rules_from_string("[[rules]]\npattern = 7\ncolor = 'c'\n\n[patterns]\n[colors]\n");
    assert!(matches!(r, Err(RuleLoadError::BadRuleEntry { index: 0 })));
}

#[test]
fn missing_patterns_table_is_reported() {
    let r = load_rules_from_string("[[rules]]\npattern = '()(a)()'\ncolor = 'c'\n\n[colors]\n");
    assert!(matches!(r, Err(RuleLoadError::MissingPatterns)));
}

#[test]
fn non_string_pattern_placeholder_is_reported() {
    let r = load_rules_from_string(
        "[[rules]]\npattern = '()(a)()'\ncolor = 'c'\n\n[patterns]\nx = 3\n\n[colors]\n",
    );
    assert!(matches!(r, Err(RuleLoadError::BadPatterns)));
}

#[test]
fn missing_colors_table_is_reported() {
    let r = load_rules_from_string("[[rules]]\npattern = '()(a)()'\ncolor = 'c'\n\n[patterns]\n");
    assert!(matches!(r, Err(RuleLoadError::MissingColors)));
}

#[test]
fn non_string_color_placeholder_is_reported() {
    let r = load_rules_from_string(
        "[[rules]]\npattern = '()(a)()'\ncolor = 'c'\n\n[patterns]\n\n[colors]\nx = 3\n",
    );
    assert!(matches!(r, Err(RuleLoadError::BadColors)));
}

#[test]
fn empty_configuration_gives_the_default_rules() {
    let rules = Rules::new("").expect("default rules load");
    assert_eq!(rules.rules.len(), 33);
    // Placeholders are resolved: no rule still names one.
    for rule in &rules.rules {
        assert!(!rule.pattern.windows(5).any(|w| w == b"$HEAD"));
        assert!(!rule.color.starts_with(b"$"));
    }
}

#[test]
fn custom_configuration_text_is_used() {
    let rules = Rules::new("[[rules]]\npattern = '(^)(x)($)'\ncolor = 'c'\n\n[patterns]\n[colors]\n")
        .expect("custom rules load");
    assert_eq!(rules.rules.len(), 1);
    assert_eq!(rules.rules[0].pattern, b("(^)(x)($)"));
}

#[test]
fn malformed_configuration_is_rejected_before_any_line() {
    let r = Rules::new("not toml ===");
    assert!(matches!(r, Err(RuleLoadError::Toml { .. })));
}

fn args(list: &[&str]) -> Vec<String> {
    list.iter().map(|s| s.to_string()).collect()
}

#[test]
fn no_arguments_read_standard_input() {
    let c = Config::new(args(&["prog"])).expect("accepted");
    assert_eq!(c.files, vec!["/dev/stdin".to_string()]);
    assert_eq!(c.conf, "");
    assert!(!c.show_help && !c.show_rules);
}

#[test]
fn files_keep_their_order_and_dash_is_standard_input() {
    let c = Config::new(args(&["prog", "a.log", "-", "b.log"])).expect("accepted");
    assert_eq!(c.files, vec!["a.log".to_string(), "/dev/stdin".to_string(), "b.log".to_string()]);
}

#[test]
fn config_option_takes_the_next_argument() {
    let c = Config::new(args(&["prog", "-c", "rules.toml", "x.log"])).expect("accepted");
    assert_eq!(c.conf, "rules.toml");
    assert_eq!(c.files, vec!["x.log".to_string()]);
}

#[test]
fn config_option_without_value_is_rejected() {
    let r = Config::new(args(&["prog", "--config"]));
    assert!(matches!(r, Err(ConfigError::MissingConfigValue)));
}

#[test]
fn unknown_option_is_rejected() {
    let r = Config::new(args(&["prog", "--frobnicate"]));
    match r {
        Err(ConfigError::Unrecognized { arg }) => assert_eq!(arg, "--frobnicate"),
        _ => panic!("expected the option to be rejected"),
    }
}

#[test]
fn help_asks_for_no_input_file() {
    let c = Config::new(args(&["prog", "-h"])).expect("accepted");
    assert!(c.show_help);
    assert!(c.files.is_empty());
}

#[test]
fn rule_dump_is_recognized() {
    let c = Config::new(args(&["prog", "--show-rules"])).expect("accepted");
    assert!(c.show_rules);
    assert!(c.files.is_empty());
}

#[test]
fn default_rule_text_is_a_loadable_document() {
    let text = log_highlight::rule::default_rules_text();
    assert!(text.contains("[[rules]]"));
    let rules = load_rules_from_string(text).expect("default text loads");
    assert_eq!(rules.len(), 33);
}

#[test]
fn rule_struct_carries_pattern_and_color() {
    let r = Rule { pattern: b("(a)(b)(c)"), color: b("red") };
    assert_eq!(r.pattern, b("(a)(b)(c)"));
    assert_eq!(r.color, b("red"));
}
