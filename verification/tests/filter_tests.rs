use vibewatch::filter::expand_braces;
use vibewatch::filter::PatternFilter;
use vibewatch::filter::PatternList;

fn strings(v: &[&str]) -> Vec<String> {
    v.iter().map(|s| s.to_string()).collect()
}

#[test]
fn test_include_patterns() {
    let filter = PatternFilter::new(strings(&["*.rs", "*.ts"]), vec![]).unwrap();

    assert!(filter.should_watch("main.rs"));
    assert!(filter.should_watch("app.ts"));
    assert!(!filter.should_watch("readme.md"));
}

#[test]
fn test_exclude_patterns() {
    let filter = PatternFilter::new(vec![], strings(&["node_modules/**", "*.tmp"])).unwrap();

    assert!(!filter.should_watch("node_modules/package/index.js"));
    assert!(!filter.should_watch("temp.tmp"));
    assert!(filter.should_watch("src/main.rs"));
}

#[test]
fn test_include_and_exclude() {
    let filter = PatternFilter::new(strings(&["*.rs"]), strings(&["target/**"])).unwrap();

    assert!(filter.should_watch("src/main.rs"));
    assert!(!filter.should_watch("target/debug/main.rs"));
    assert!(!filter.should_watch("app.js"));
}

#[test]
fn test_no_patterns_watches_all() {
    let filter = PatternFilter::new(vec![], vec![]).unwrap();

    assert!(filter.should_watch("any/file.txt"));
    assert!(filter.should_watch("main.rs"));
    assert!(filter.should_watch("src/lib.rs"));
}

#[test]
fn test_multiple_wildcards() {
    let filter =
        PatternFilter::new(strings(&["**/*.rs", "**/*.toml"]), strings(&["**/target/**"])).unwrap();

    assert!(filter.should_watch("src/main.rs"));
    assert!(filter.should_watch("Cargo.toml"));
    assert!(!filter.should_watch("target/debug/main.rs"));
    assert!(!filter.should_watch("README.md"));
}

#[test]
fn test_exclude_takes_precedence() {
    let filter =
        PatternFilter::new(strings(&["**/*.rs"]), strings(&["**/test_*.rs"])).unwrap();

    assert!(filter.should_watch("src/main.rs"));
    assert!(!filter.should_watch("src/test_helper.rs"));
    assert!(!filter.should_watch("tests/test_integration.rs"));
}

#[test]
fn test_invalid_include_pattern_returns_error() {
    let result = PatternFilter::new(strings(&["[invalid"]), vec![]);
    assert!(result.is_err());
    let err_msg = result.unwrap_err().message();
    assert!(err_msg.contains("Failed to compile include patterns"));
}

#[test]
fn test_invalid_exclude_pattern_returns_error() {
    let result = PatternFilter::new(vec![], strings(&["[invalid"]));
    assert!(result.is_err());
    let err_msg = result.unwrap_err().message();
    assert!(err_msg.contains("Failed to compile exclude patterns"));
}

#[test]
fn test_complex_glob_patterns() {
    let filter = PatternFilter::new(
        strings(&["src/**/*.rs", "src/**/*.toml", "src/**/*.md"]),
        vec![],
    )
    .unwrap();

    assert!(filter.should_watch("src/lib.rs"));
    assert!(filter.should_watch("src/bin/main.rs"));
    assert!(filter.should_watch("src/README.md"));
    assert!(!filter.should_watch("tests/test.rs"));
}

#[test]
fn test_case_sensitive_patterns() {
    let filter = PatternFilter::new(strings(&["*.RS"]), vec![]).unwrap();

    assert!(filter.should_watch("MAIN.RS"));
    assert!(!filter.should_watch("main.rs"));
}

#[test]
fn test_exact_path_match() {
    let filter = PatternFilter::new(strings(&["Cargo.toml"]), vec![]).unwrap();

    assert!(filter.should_watch("Cargo.toml"));
    assert!(!filter.should_watch("src/Cargo.toml"));
}

#[test]
fn test_empty_include_with_excludes() {
    let filter = PatternFilter::new(vec![], strings(&["*.tmp", "*.bak"])).unwrap();

    assert!(filter.should_watch("main.rs"));
    assert!(!filter.should_watch("file.tmp"));
    assert!(!filter.should_watch("backup.bak"));
}

#[test]
fn test_multiple_include_patterns() {
    let filter = PatternFilter::new(strings(&["*.rs", "*.toml", "*.md"]), vec![]).unwrap();

    assert!(filter.should_watch("main.rs"));
    assert!(filter.should_watch("Cargo.toml"));
    assert!(filter.should_watch("README.md"));
    assert!(!filter.should_watch("script.sh"));
}

#[test]
fn test_pattern_with_directory_separator() {
    let filter = PatternFilter::new(strings(&["src/*.rs"]), vec![]).unwrap();

    assert!(filter.should_watch("src/main.rs"));
    assert!(filter.should_watch("src/lib.rs"));
    assert!(!filter.should_watch("tests/test.rs"));
    assert!(!filter.should_watch("main.rs"));
}

#[test]
fn test_brace_expansion_basic() {
    let expanded = expand_braces("*.{rs,toml}");
    assert_eq!(expanded, vec!["*.rs", "*.toml"]);
}

#[test]
fn test_brace_expansion_three_extensions() {
    let expanded = expand_braces("*.{js,ts,jsx}");
    assert_eq!(expanded, vec!["*.js", "*.ts", "*.jsx"]);
}

#[test]
fn test_brace_expansion_with_prefix_and_suffix() {
    let expanded = expand_braces("src/**/*.{rs,toml}");
    assert_eq!(expanded, vec!["src/**/*.rs", "src/**/*.toml"]);
}

#[test]
fn test_brace_expansion_with_spaces() {
    let expanded = expand_braces("*.{rs, toml, md}");
    assert_eq!(expanded, vec!["*.rs", "*.toml", "*.md"]);
}

#[test]
fn test_brace_expansion_no_braces() {
    let expanded = expand_braces("*.rs");
    assert_eq!(expanded, vec!["*.rs"]);
}

#[test]
fn test_brace_expansion_malformed_no_closing() {
    let expanded = expand_braces("*.{rs,toml");
    assert_eq!(expanded, vec!["*.{rs,toml"]);
}

#[test]
fn test_brace_expansion_malformed_no_opening() {
    let expanded = expand_braces("*.rs,toml}");
    assert_eq!(expanded, vec!["*.rs,toml}"]);
}

#[test]
fn test_brace_expansion_empty() {
    let expanded = expand_braces("*.{}");
    assert_eq!(expanded, vec!["*."]);
}

#[test]
fn test_brace_expansion_with_unicode_whitespace() {
    let expanded = expand_braces("*.{\u{000B}a,b}");
    assert_eq!(expanded, vec!["*.a", "*.b"]);
    let expanded = expand_braces("*.{rs,\u{00A0}toml\u{3000}}");
    assert_eq!(expanded, vec!["*.rs", "*.toml"]);
}

#[test]
fn test_brace_expansion_first_pair_only() {
    let expanded = expand_braces("a{b,c}d{e,f}");
    assert_eq!(expanded, vec!["abd{e,f}", "acd{e,f}"]);
}

#[test]
fn test_brace_expansion_closing_before_opening() {
    let expanded = expand_braces("a}b{c,d}");
    assert_eq!(expanded, vec!["a}b{c,d}"]);
}

#[test]
fn test_filter_with_brace_expansion() {
    let filter = PatternFilter::new(strings(&["*.{rs,toml}"]), vec![]).unwrap();

    assert!(filter.should_watch("main.rs"));
    assert!(filter.should_watch("Cargo.toml"));
    assert!(!filter.should_watch("README.md"));
}

#[test]
fn test_filter_with_brace_expansion_typescript() {
    let filter = PatternFilter::new(strings(&["*.{ts,tsx}"]), vec![]).unwrap();

    assert!(filter.should_watch("App.tsx"));
    assert!(filter.should_watch("utils.ts"));
    assert!(!filter.should_watch("index.js"));
}

#[test]
fn test_filter_with_multiple_brace_patterns() {
    let filter =
        PatternFilter::new(strings(&["*.{rs,toml}", "*.{md,txt}"]), vec![]).unwrap();

    assert!(filter.should_watch("main.rs"));
    assert!(filter.should_watch("Cargo.toml"));
    assert!(filter.should_watch("README.md"));
    assert!(filter.should_watch("notes.txt"));
    assert!(!filter.should_watch("script.sh"));
}

#[test]
fn test_filter_brace_expansion_with_exclude() {
    let filter =
        PatternFilter::new(strings(&["*.{rs,toml}"]), strings(&["target/**"])).unwrap();

    assert!(filter.should_watch("src/main.rs"));
    assert!(filter.should_watch("Cargo.toml"));
    assert!(!filter.should_watch("target/debug/main.rs"));
    assert!(!filter.should_watch("README.md"));
}

#[test]
fn test_double_star_pattern() {
    let filter = PatternFilter::new(strings(&["**/test/**/*.rs"]), vec![]).unwrap();

    assert!(filter.should_watch("test/unit/test.rs"));
    assert!(filter.should_watch("src/test/integration/test.rs"));
    assert!(!filter.should_watch("src/main.rs"));
}

#[test]
fn test_pattern_filter_debug() {
    let filter = PatternFilter::new(strings(&["*.rs"]), vec![]).unwrap();
    let debug_str = format!("{:?}", filter);
    assert!(debug_str.contains("PatternFilter"));
}

#[test]
fn test_multiple_invalid_patterns() {
    let result = PatternFilter::new(strings(&["[invalid", "[also_invalid"]), vec![]);
    assert!(result.is_err());
}

#[test]
fn test_first_invalid_pattern_is_reported() {
    let result = PatternFilter::new(strings(&["*.rs", "[invalid", "[also_invalid"]), vec![]);
    let err = result.unwrap_err();
    assert!(matches!(err.list, PatternList::Include));
    assert_eq!(err.pattern, "[invalid");
}

#[test]
fn test_exclude_only_target_tree() {
    let filter = PatternFilter::new(vec![], strings(&["target/**"])).unwrap();

    assert!(!filter.should_watch("target/x.rs"));
    assert!(filter.should_watch("src/x.rs"));
}

#[test]
fn test_overlapping_patterns() {
    let filter = PatternFilter::new(strings(&["*.rs", "src/*.rs"]), vec![]).unwrap();

    assert!(filter.should_watch("main.rs"));
    assert!(filter.should_watch("src/lib.rs"));
}

#[test]
fn test_exclude_overrides_overlapping_include() {
    let filter =
        PatternFilter::new(strings(&["**/*.rs"]), strings(&["**/test_*.rs"])).unwrap();

    assert!(filter.should_watch("src/main.rs"));
    assert!(!filter.should_watch("src/test_helper.rs"));
}
