use lbt::depfile::parse_deps;
use lbt::globfiles::find_files;
use lbt::model::{BuildError, Filters, Format, FormatRule, Trim};

fn strings(items: &[&str]) -> Vec<String> {
    items.iter().map(|s| s.to_string()).collect()
}

#[test]
fn dependency_listing_drops_first_line_and_trims_backslash() {
    let format = Format {
        split: None,
        start: Some(FormatRule { ignore_lines: 1, trim: None }),
        end: Some(FormatRule {
            ignore_lines: 0,
            trim: Some(Trim { condition: "\\".to_string(), remove: 1 }),
        }),
    };
    let lines = strings(&["main.o: main.c \\", "header.h"]);
    let deps = parse_deps(&lines, &format);
    assert_eq!(deps, strings(&["header.h"]));
}

#[test]
fn dependency_listing_backslash_line_is_trimmed() {
    let format = Format {
        split: None,
        start: Some(FormatRule { ignore_lines: 0, trim: None }),
        end: Some(FormatRule {
            ignore_lines: 0,
            trim: Some(Trim { condition: "\\".to_string(), remove: 1 }),
        }),
    };
    let lines = strings(&["  a.h \\", "b.h"]);
    let deps = parse_deps(&lines, &format);
    assert_eq!(deps, strings(&["a.h", "b.h"]));
}

#[test]
fn dependency_listing_split_separator_yields_tokens() {
    let format = Format {
        split: Some(" ".to_string()),
        start: Some(FormatRule { ignore_lines: 1, trim: None }),
        end: Some(FormatRule {
            ignore_lines: 0,
            trim: Some(Trim { condition: "\\".to_string(), remove: 1 }),
        }),
    };
    let lines = strings(&["main.o: \\", "main.c header.h  util.h"]);
    let deps = parse_deps(&lines, &format);
    assert_eq!(deps, strings(&["main.c", "header.h", "util.h"]));
}

#[test]
fn dependency_listing_start_trim_removes_prefix() {
    let format = Format {
        split: None,
        start: Some(FormatRule {
            ignore_lines: 0,
            trim: Some(Trim { condition: ">".to_string(), remove: 2 }),
        }),
        end: None,
    };
    let lines = strings(&["> a.h", "b.h"]);
    let deps = parse_deps(&lines, &format);
    assert_eq!(deps, strings(&["a.h", "b.h"]));
}

#[test]
fn dependency_listing_shorter_than_ignored_lines_is_empty() {
    let format = Format {
        split: None,
        start: Some(FormatRule { ignore_lines: 2, trim: None }),
        end: Some(FormatRule { ignore_lines: 1, trim: None }),
    };
    let lines = strings(&["one", "two"]);
    assert_eq!(parse_deps(&lines, &format), Vec::<String>::new());
}

#[test]
fn dependency_listing_discards_empty_lines() {
    let format = Format { split: None, start: None, end: None };
    let lines = strings(&["  ", "a.h", ""]);
    assert_eq!(parse_deps(&lines, &format), strings(&["a.h"]));
}

#[test]
fn glob_filters_select_includes_minus_excludes() {
    let filters = Filters {
        patterns: strings(&["*.c", "*.cpp"]),
        exclude: strings(&["*_test.c"]),
    };
    let names = strings(&["a.c", "b.cpp", "b_test.c", "c.h"]);
    let picked = find_files(&names, Some(&filters)).unwrap();
    assert_eq!(picked, strings(&["a.c", "b.cpp"]));
}

#[test]
fn glob_without_filters_keeps_everything() {
    let names = strings(&["a.c", "b.h"]);
    let picked = find_files(&names, None).unwrap();
    assert_eq!(picked, names);
}

#[test]
fn glob_empty_include_list_keeps_everything_not_excluded() {
    let filters = Filters { patterns: Vec::new(), exclude: strings(&["*.h"]) };
    let names = strings(&["a.c", "b.h"]);
    let picked = find_files(&names, Some(&filters)).unwrap();
    assert_eq!(picked, strings(&["a.c"]));
}

#[test]
fn glob_bad_pattern_is_reported() {
    let filters = Filters { patterns: strings(&["[unclosed"]), exclude: Vec::new() };
    let names = strings(&["a.c"]);
    let err = find_files(&names, Some(&filters)).unwrap_err();
    assert!(matches!(err, BuildError::PatternInvalid(p) if p == "[unclosed"));
}

#[test]
fn glob_backslash_patterns_are_normalized() {
    let filters = Filters { patterns: strings(&["src\\*.c"]), exclude: Vec::new() };
    let names = strings(&["src/a.c", "src/a.h"]);
    let picked = find_files(&names, Some(&filters)).unwrap();
    assert_eq!(picked, strings(&["src/a.c"]));
}
