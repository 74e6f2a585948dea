use rust_style::adjacency::{check_impl_follows_type, TopItem};
use rust_style::placeholders::{count_empty_placeholders, find_empty_placeholder_positions};
use rust_style::tokens::is_simple_identifier;
use rust_style::inline_rule::{check_embed_simple_vars, FormatMacroVisitor, MacroCall};
use rust_style::report::RuleId;
use rust_style::tokens::{Token, TokenKind};

fn type_decl(name: &str, end_line: usize) -> TopItem {
    TopItem::TypeDecl { name: name.to_string(), end_line }
}

fn impl_block(name: &str, is_trait_impl: bool, start_line: usize, end_line: usize) -> TopItem {
    TopItem::ImplBlock {
        target_name: Some(name.to_string()),
        is_trait_impl,
        start_line,
        end_line,
    }
}

fn lit(text: &str) -> Token {
    Token { kind: TokenKind::Literal, text: text.to_string(), line: 1, end_line: 1 }
}

fn ident(text: &str) -> Token {
    Token { kind: TokenKind::Ident, text: text.to_string(), line: 1, end_line: 1 }
}

fn punct(text: &str) -> Token {
    Token { kind: TokenKind::Punct, text: text.to_string(), line: 1, end_line: 1 }
}

fn group(text: &str) -> Token {
    Token { kind: TokenKind::Group, text: text.to_string(), line: 1, end_line: 1 }
}

#[test]
fn adjacent_impl_with_one_blank_line_passes() {
    let items = vec![type_decl("Foo", 3), impl_block("Foo", false, 5, 9)];
    let violations = check_impl_follows_type("src/lib.rs", &items);
    assert_eq!(violations.len(), 0);
}

#[test]
fn impl_with_two_blank_lines_reports_exact_gap() {
    let items = vec![type_decl("Foo", 3), impl_block("Foo", false, 6, 9)];
    let violations = check_impl_follows_type("src/lib.rs", &items);
    assert_eq!(violations.len(), 1);
    assert_eq!(violations[0].rule, RuleId::ImplFollowsType);
    assert_eq!(violations[0].file, "src/lib.rs");
    assert_eq!(violations[0].line, 6);
    assert_eq!(
        violations[0].message,
        "`impl Foo` should follow type definition (line 3), but has 2 blank line(s)"
    );
    assert!(violations[0].fix.is_none());
}

#[test]
fn trait_impls_never_trigger_adjacency() {
    let items = vec![
        type_decl("Foo", 3),
        impl_block("Foo", true, 40, 50),
        type_decl("Bar", 60),
        impl_block("Bar", true, 100, 120),
    ];
    let violations = check_impl_follows_type("src/lib.rs", &items);
    assert_eq!(violations.len(), 0);
}

#[test]
fn impl_chain_anchors_at_previous_block() {
    // The second block for the same type is measured from the first
    // block's end, not from the declaration.
    let items = vec![
        type_decl("Foo", 3),
        impl_block("Foo", false, 5, 9),
        impl_block("Foo", false, 11, 15),
    ];
    assert_eq!(check_impl_follows_type("a.rs", &items).len(), 0);

    let items = vec![
        type_decl("Foo", 3),
        impl_block("Foo", false, 5, 9),
        impl_block("Foo", false, 14, 20),
    ];
    let violations = check_impl_follows_type("a.rs", &items);
    assert_eq!(violations.len(), 1);
    assert_eq!(violations[0].line, 14);
    assert_eq!(
        violations[0].message,
        "`impl Foo` should follow type definition (line 9), but has 4 blank line(s)"
    );
}

#[test]
fn later_redefinition_moves_the_anchor() {
    // The anchor map keeps the last known position of each name.
    let items = vec![
        type_decl("Foo", 3),
        type_decl("Foo", 30),
        impl_block("Foo", false, 32, 40),
    ];
    assert_eq!(check_impl_follows_type("a.rs", &items).len(), 0);
    let items = vec![type_decl("Foo", 3), impl_block("Foo", false, 32, 40)];
    assert_eq!(check_impl_follows_type("a.rs", &items).len(), 1);
}

#[test]
fn unknown_type_is_skipped_silently() {
    let items = vec![impl_block("Elsewhere", false, 50, 60)];
    assert_eq!(check_impl_follows_type("a.rs", &items).len(), 0);
}

fn println_two_idents() -> (String, Vec<MacroCall>) {
    let content = "println!(\"{} and {}\", a, b);".to_string();
    let mac = MacroCall {
        name: "println".to_string(),
        line: 1,
        column: 0,
        tokens: vec![lit("\"{} and {}\""), punct(","), ident("a"), punct(","), ident("b")],
    };
    (content, vec![mac])
}

#[test]
fn two_bare_identifiers_yield_two_violations_and_one_fix() {
    let (content, macros) = println_two_idents();
    let violations = check_embed_simple_vars("src/main.rs", &content, &macros);
    assert_eq!(violations.len(), 2);
    assert_eq!(
        violations[0].message,
        "variable `a` should be embedded in format string: use `{a}` instead of `{}, a`"
    );
    assert_eq!(
        violations[1].message,
        "variable `b` should be embedded in format string: use `{b}` instead of `{}, b`"
    );
    for v in &violations {
        assert_eq!(v.rule, RuleId::EmbedSimpleVars);
        assert_eq!(v.file, "src/main.rs");
        assert_eq!(v.line, 1);
        let fix = v.fix.as_ref().expect("both violations share the fix");
        assert_eq!(fix.start, 0);
        assert_eq!(fix.end, content.chars().count());
        let replacement: String = fix.replacement.iter().collect();
        assert_eq!(replacement, "println!(\"{a} and {b}\");");
    }
}

#[test]
fn partial_inline_is_reported_but_never_fixed() {
    let content = "println!(\"{} and {}\", a, b.len());".to_string();
    let mac = MacroCall {
        name: "println".to_string(),
        line: 1,
        column: 0,
        tokens: vec![
            lit("\"{} and {}\""),
            punct(","),
            ident("a"),
            punct(","),
            ident("b"),
            punct("."),
            ident("len"),
            group("()"),
        ],
    };
    let violations = check_embed_simple_vars("src/main.rs", &content, &vec![mac]);
    assert_eq!(violations.len(), 1);
    assert_eq!(
        violations[0].message,
        "variable `a` should be embedded in format string: use `{a}` instead of `{}, a`"
    );
    assert!(violations[0].fix.is_none());
}

#[test]
fn count_mismatch_reports_nothing() {
    // One empty placeholder but two trailing arguments: ambiguous.
    let content = "println!(\"{}\", a, b);".to_string();
    let mac = MacroCall {
        name: "println".to_string(),
        line: 1,
        column: 0,
        tokens: vec![lit("\"{}\""), punct(","), ident("a"), punct(","), ident("b")],
    };
    let violations = check_embed_simple_vars("x.rs", &content, &vec![mac]);
    assert_eq!(violations.len(), 0);
}

#[test]
fn unrecognized_macro_names_are_ignored() {
    let content = "assert_eq!(\"{}\", a);".to_string();
    let mac = MacroCall {
        name: "assert_eq".to_string(),
        line: 1,
        column: 0,
        tokens: vec![lit("\"{}\""), punct(","), ident("a")],
    };
    assert_eq!(check_embed_simple_vars("x.rs", &content, &vec![mac]).len(), 0);
}

#[test]
fn duplicate_span_is_visited_once() {
    let (content, mut macros) = println_two_idents();
    let again = MacroCall {
        name: "println".to_string(),
        line: 1,
        column: 0,
        tokens: macros[0].tokens.clone(),
    };
    macros.push(again);
    let violations = check_embed_simple_vars("x.rs", &content, &macros);
    assert_eq!(violations.len(), 2);
}

#[test]
fn named_and_escaped_placeholders_are_not_counted() {
    assert_eq!(count_empty_placeholders("{} {{}} {name} {:>8} {}"), 2);
    assert_eq!(count_empty_placeholders("no placeholders"), 0);
    assert_eq!(count_empty_placeholders("{{escaped}}"), 0);
}

#[test]
fn placeholder_positions_point_at_braces() {
    let positions = find_empty_placeholder_positions("\"{} and {}\"");
    assert_eq!(positions, vec![1, 8]);
}

#[test]
fn simple_identifier_classification() {
    assert!(is_simple_identifier("a"));
    assert!(is_simple_identifier("_private"));
    assert!(is_simple_identifier("snake_case_2"));
    assert!(!is_simple_identifier(""));
    assert!(!is_simple_identifier("2fast"));
    assert!(!is_simple_identifier("b.len()"));
    assert!(!is_simple_identifier("a::b"));
}

#[test]
fn visitor_collects_across_calls() {
    let (content, macros) = println_two_idents();
    let mut visitor = FormatMacroVisitor::new("x.rs", &content);
    visitor.check_format_macro(&macros[0]);
    assert_eq!(visitor.violations.len(), 2);
    // Same position again: deduplicated.
    visitor.check_format_macro(&macros[0]);
    assert_eq!(visitor.violations.len(), 2);
}

#[test]
fn multiline_template_declines_fix() {
    // Template reported on lines 1..2: the synthesizer must decline.
    let content = "println!(\"{}\",\n    a);".to_string();
    let mut template = lit("\"{}\"");
    template.end_line = 2;
    let mac = MacroCall {
        name: "println".to_string(),
        line: 1,
        column: 0,
        tokens: vec![template, punct(","), ident("a")],
    };
    let violations = check_embed_simple_vars("x.rs", &content, &vec![mac]);
    assert_eq!(violations.len(), 1);
    assert!(violations[0].fix.is_none());
}
