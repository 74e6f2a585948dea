use rust_style::engine::{check_file, parse_bool_flag};
use rust_style::inline_rule::MacroCall;
use rust_style::patch::{apply_fixes_to_content, count_unfixable, group_fixes_by_file};
use rust_style::report::{Fix, RuleId, Violation};
use rust_style::tokens::{Token, TokenKind};
use rust_style::{Command, Config};

fn chars(s: &str) -> Vec<char> {
    s.chars().collect()
}

fn token(kind: TokenKind, text: &str) -> Token {
    Token { kind, text: text.to_string(), line: 1, end_line: 1 }
}

fn println_macro(template: &str, args: &[&str]) -> MacroCall {
    let mut tokens = vec![token(TokenKind::Literal, template)];
    for a in args {
        tokens.push(token(TokenKind::Punct, ","));
        tokens.push(token(TokenKind::Ident, a));
    }
    MacroCall { name: "println".to_string(), line: 1, column: 0, tokens }
}

fn violation(file: &str, fix: Option<Fix>) -> Violation {
    Violation {
        rule: RuleId::EmbedSimpleVars,
        file: file.to_string(),
        line: 1,
        message: "test".to_string(),
        fix,
    }
}

#[test]
fn default_config_enables_everything() {
    let config = Config::default();
    assert_eq!(config.command, Command::Assert);
    assert!(config.impl_follows_type);
    assert!(config.embed_simple_vars);
}

#[test]
fn bool_flags_parse_case_insensitively() {
    assert_eq!(parse_bool_flag("true"), Some(true));
    assert_eq!(parse_bool_flag("TRUE"), Some(true));
    assert_eq!(parse_bool_flag("1"), Some(true));
    assert_eq!(parse_bool_flag("Yes"), Some(true));
    assert_eq!(parse_bool_flag("false"), Some(false));
    assert_eq!(parse_bool_flag("0"), Some(false));
    assert_eq!(parse_bool_flag("No"), Some(false));
    assert_eq!(parse_bool_flag("maybe"), None);
    assert_eq!(parse_bool_flag(""), None);
}

#[test]
fn disabled_rules_report_nothing() {
    let content = "println!(\"{}\", a);";
    let macros = vec![println_macro("\"{}\"", &["a"])];
    let items = vec![];
    let config = Config { command: Command::Assert, impl_follows_type: true, embed_simple_vars: false };
    assert_eq!(check_file("x.rs", content, &items, &macros, &config).len(), 0);
    let config = Config { command: Command::Assert, impl_follows_type: true, embed_simple_vars: true };
    assert_eq!(check_file("x.rs", content, &items, &macros, &config).len(), 1);
}

#[test]
fn patching_rewrites_the_whole_line() {
    let content = chars("println!(\"{} and {}\", a, b);");
    let macros = vec![println_macro("\"{} and {}\"", &["a", "b"])];
    let config = Config::default();
    let violations = check_file(
        "src/main.rs",
        "println!(\"{} and {}\", a, b);",
        &vec![],
        &macros,
        &config,
    );
    assert_eq!(violations.len(), 2);
    let groups = group_fixes_by_file(&violations);
    assert_eq!(groups.len(), 1);
    assert_eq!(groups[0].0, "src/main.rs");
    assert_eq!(groups[0].1.len(), 2);
    let (patched, applied, skipped) = apply_fixes_to_content(&content, &groups[0].1);
    let patched: String = patched.iter().collect();
    assert_eq!(patched, "println!(\"{a} and {b}\");");
    // Two fixes at the identical range collapse to one applied fix.
    assert_eq!(applied, 1);
    assert_eq!(skipped, 0);
}

#[test]
fn format_mode_is_idempotent_on_the_patched_text() {
    // First run: compute and apply the fix.
    let source = "println!(\"{} and {}\", a, b);";
    let macros = vec![println_macro("\"{} and {}\"", &["a", "b"])];
    let config = Config::default();
    let violations = check_file(source, source, &vec![], &macros, &config);
    let groups = group_fixes_by_file(&violations);
    let (patched, _, _) = apply_fixes_to_content(&chars(source), &groups[0].1);
    let patched: String = patched.iter().collect();
    assert_eq!(patched, "println!(\"{a} and {b}\");");
    // Second run over the patched text: the invocation now has named
    // placeholders and no trailing arguments, so nothing is reported.
    let second = MacroCall {
        name: "println".to_string(),
        line: 1,
        column: 0,
        tokens: vec![token(TokenKind::Literal, "\"{a} and {b}\"")],
    };
    let violations = check_file(&patched, &patched, &vec![], &vec![second], &config);
    assert_eq!(violations.len(), 0);
}

#[test]
fn fixes_from_distinct_lines_never_overlap() {
    let source = "println!(\"{}\", a);\nprintln!(\"{}\", b);";
    let mut first = println_macro("\"{}\"", &["a"]);
    first.line = 1;
    let mut second = println_macro("\"{}\"", &["b"]);
    second.line = 2;
    second.column = 0;
    for t in second.tokens.iter_mut() {
        t.line = 2;
        t.end_line = 2;
    }
    let config = Config::default();
    let violations = check_file(source, source, &vec![], &vec![first, second], &config);
    assert_eq!(violations.len(), 2);
    let f1 = violations[0].fix.as_ref().unwrap();
    let f2 = violations[1].fix.as_ref().unwrap();
    // The invariant a test suite must assert: ranges are identical or
    // disjoint, never overlapping.
    let identical = f1.start == f2.start && f1.end == f2.end;
    let disjoint = f1.end <= f2.start || f2.end <= f1.start;
    assert!(identical || disjoint);
    assert!(disjoint);
    let (patched, applied, skipped) = apply_fixes_to_content(
        &chars(source),
        &vec![
            Fix { start: f1.start, end: f1.end, replacement: f1.replacement.clone() },
            Fix { start: f2.start, end: f2.end, replacement: f2.replacement.clone() },
        ],
    );
    let patched: String = patched.iter().collect();
    assert_eq!(patched, "println!(\"{a}\");\nprintln!(\"{b}\");");
    assert_eq!(applied, 2);
    assert_eq!(skipped, 0);
}

#[test]
fn out_of_bounds_fix_is_skipped() {
    let content = chars("short");
    let fixes = vec![Fix { start: 2, end: 99, replacement: chars("x") }];
    let (patched, applied, skipped) = apply_fixes_to_content(&content, &fixes);
    let patched: String = patched.iter().collect();
    assert_eq!(patched, "short");
    assert_eq!(applied, 0);
    assert_eq!(skipped, 1);
}

#[test]
fn fixes_apply_back_to_front() {
    let content = chars("aabbcc");
    let fixes = vec![
        Fix { start: 0, end: 2, replacement: chars("X") },
        Fix { start: 4, end: 6, replacement: chars("Z") },
    ];
    let (patched, applied, _) = apply_fixes_to_content(&content, &fixes);
    let patched: String = patched.iter().collect();
    assert_eq!(patched, "XbbZ");
    assert_eq!(applied, 2);
}

#[test]
fn unfixable_violations_are_counted() {
    let vs = vec![
        violation("a.rs", None),
        violation("a.rs", Some(Fix { start: 0, end: 1, replacement: chars("x") })),
        violation("b.rs", None),
    ];
    assert_eq!(count_unfixable(&vs), 2);
}

#[test]
fn fixes_group_by_file_in_first_appearance_order() {
    let vs = vec![
        violation("b.rs", Some(Fix { start: 0, end: 1, replacement: chars("x") })),
        violation("a.rs", Some(Fix { start: 2, end: 3, replacement: chars("y") })),
        violation("b.rs", Some(Fix { start: 4, end: 5, replacement: chars("z") })),
        violation("c.rs", None),
    ];
    let groups = group_fixes_by_file(&vs);
    assert_eq!(groups.len(), 2);
    assert_eq!(groups[0].0, "b.rs");
    assert_eq!(groups[0].1.len(), 2);
    assert_eq!(groups[1].0, "a.rs");
    assert_eq!(groups[1].1.len(), 1);
}

#[test]
fn rule_names_match_the_reports() {
    assert_eq!(RuleId::ImplFollowsType.name(), "impl-follows-type");
    assert_eq!(RuleId::EmbedSimpleVars.name(), "embed-simple-vars");
}
