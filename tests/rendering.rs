use mathovi::error::Error;
use mathovi::expression::{evaulate, BinaryOp, Expr, Func, UnaryOp};
use mathovi::latex::to_latex;
use mathovi::lexer::{Token, TokenKind};

fn one(text: &str) -> String {
    let mut out = to_latex(text).unwrap();
    assert_eq!(out.len(), 1);
    out.pop().unwrap()
}

fn err(text: &str) -> Error {
    to_latex(text).unwrap_err()
}

#[test]
fn numeral_renders_braced() {
    assert_eq!(one("2"), "{2}");
    assert_eq!(one("42"), "{42}");
    assert_eq!(one("3.25"), "{3.25}");
}

#[test]
fn numeral_renders_in_canonical_form() {
    assert_eq!(one("5.0"), "{5}");
    assert_eq!(one("2.50"), "{2.5}");
    assert_eq!(one("007"), "{7}");
    assert_eq!(one("0.5"), "{0.5}");
    assert_eq!(one("00.0"), "{0}");
    assert_eq!(one("1."), "{1}");
}

#[test]
fn binary_operands_are_braced() {
    for (text, op) in [("a + b", "+"), ("a - b", "-"), ("a ^ b", "^"), ("a = b", "=")] {
        let out = one(text);
        assert!(out.contains("{{a}}"));
        assert!(out.contains("{{b}}"));
        assert_eq!(out, format!("{{{{a}}}} {} {{{{b}}}}", op));
    }
    let out = one("(a + b) * (c - d)");
    assert!(out.contains("{({{a}} + {{b}})}"));
    assert!(out.contains("{({{c}} - {{d}})}"));
}

#[test]
fn product_of_numerals_has_symbol() {
    assert_eq!(one("2 * 3"), "{{2}}*{{3}}");
}

#[test]
fn product_with_symbol_is_adjacent() {
    assert_eq!(one("2 * x"), "{{2}}{{x}}");
    assert_eq!(one("x * 2"), "{{x}}{{2}}");
    assert!(!one("2 * x").contains('*'));
}

#[test]
fn product_with_sum_gets_parentheses() {
    let out = one("2 * (3 + 4)");
    assert!(out.contains("{("));
    assert!(out.contains(")}"));
    assert_eq!(out, "{{2}}{({{3}} + {{4}})}");
    assert_eq!(one("(a - b) * c"), "{({{a}} - {{b}})}{{c}}");
}

#[test]
fn fraction_renders_with_frac() {
    assert_eq!(one("1 / 2"), "\\frac{{1}} {{2}}");
}

#[test]
fn negation_renders_minus() {
    assert_eq!(one("-x"), "-{{x}}");
}

#[test]
fn same_level_groups_to_the_right() {
    assert_eq!(one("a - b - c"), "{{a}} - {{{b}} - {{c}}}");
    assert_eq!(one("x = 1 + 2"), "{{x}} = {{{1}} + {{2}}}");
}

#[test]
fn sqrt_renders_template() {
    let out = one("sqrt(x)");
    assert!(out.contains("\\sqrt{{x}}"));
    assert_eq!(out, "\\sqrt{{x}}");
    assert_eq!(one("sin(x)"), "\\sin({{x}})");
    assert_eq!(one("COS(y)"), "\\cos({{y}})");
}

#[test]
fn wrong_argument_counts_fail() {
    for name in ["sqrt", "sin", "cos"] {
        match err(&format!("{}()", name)) {
            Error::WrongArguments { expected, found, .. } => {
                assert_eq!(expected, 1);
                assert_eq!(found, 0);
            }
            e => panic!("unexpected {:?}", e),
        }
        match err(&format!("{}(x, y)", name)) {
            Error::WrongArguments { expected, found, .. } => {
                assert_eq!(expected, 1);
                assert_eq!(found, 2);
            }
            e => panic!("unexpected {:?}", e),
        }
    }
}

#[test]
fn wrong_arguments_position_is_the_paren() {
    assert_eq!(err("sin()"), Error::WrongArguments { line: 0, col: 4, found: 0, expected: 1 });
}

#[test]
fn unknown_function_fails() {
    match err("tan(x)") {
        Error::UnexpectedIdent { ident, .. } => assert_eq!(ident, "tan"),
        e => panic!("unexpected {:?}", e),
    }
    match err("TAN(x)") {
        Error::UnexpectedIdent { ident, .. } => assert_eq!(ident, "tan"),
        e => panic!("unexpected {:?}", e),
    }
}

#[test]
fn ellipsis_renders_dots() {
    assert_eq!(one("..."), "{{{\\dots}}}");
}

#[test]
fn two_dots_then_end_fails_with_eof() {
    assert_eq!(err(".."), Error::UnexpectedEOF);
}

#[test]
fn two_dots_then_symbol_fails() {
    match err("..x") {
        Error::UnexpectedToken { expected, found } => {
            assert_eq!(expected, vec![TokenKind::Dot]);
            assert_eq!(found.kind, TokenKind::Identifier("x".to_string()));
        }
        e => panic!("unexpected {:?}", e),
    }
}

#[test]
fn statements_render_in_order() {
    let out = to_latex("a = 1; b = 2;").unwrap();
    assert_eq!(out, vec!["{{a}} = {{1}}".to_string(), "{{b}} = {{2}}".to_string()]);
    let out = to_latex("a = 1; b = 2").unwrap();
    assert_eq!(out.len(), 2);
}

#[test]
fn missing_separator_fails() {
    match err("a = 1 b = 2") {
        Error::UnexpectedToken { expected, found } => {
            assert_eq!(expected, vec![TokenKind::End]);
            assert_eq!(found.kind, TokenKind::Identifier("b".to_string()));
        }
        e => panic!("unexpected {:?}", e),
    }
}

#[test]
fn same_text_same_output() {
    let text = "x = 2 * (a + b); y = sqrt(x) / 3";
    assert_eq!(to_latex(text), to_latex(text));
    assert_eq!(to_latex(text).unwrap().len(), 2);
}

#[test]
fn empty_input_fails_with_eof() {
    assert_eq!(err(""), Error::UnexpectedEOF);
    assert_eq!(err("   "), Error::UnexpectedEOF);
}

#[test]
fn unclosed_paren_fails() {
    assert_eq!(err("(a"), Error::UnexpectedEOF);
    match err("(a b") {
        Error::UnexpectedToken { expected, .. } => assert_eq!(expected, vec![TokenKind::ParenClose]),
        e => panic!("unexpected {:?}", e),
    }
}

#[test]
fn call_without_paren_fails() {
    match err("sin x") {
        Error::UnexpectedToken { expected, .. } => assert_eq!(expected, vec![TokenKind::ParenOpen]),
        e => panic!("unexpected {:?}", e),
    }
    assert_eq!(err("sin"), Error::UnexpectedEOF);
}

#[test]
fn bad_primary_names_what_may_start_one() {
    match err(")") {
        Error::UnexpectedToken { expected, found } => {
            assert_eq!(
                expected,
                vec![
                    TokenKind::Dot,
                    TokenKind::Minus,
                    TokenKind::Number("0".to_string()),
                    TokenKind::Identifier(String::new()),
                    TokenKind::ParenOpen,
                ]
            );
            assert_eq!(found, Token { line: 0, col: 1, size: 1, kind: TokenKind::ParenClose });
        }
        e => panic!("unexpected {:?}", e),
    }
}

#[test]
fn undefined_character_fails() {
    assert_eq!(err("a $ b"), Error::UndefinedToken { line: 0, col: 3, found: '$' });
}

#[test]
fn malformed_numeral_fails() {
    assert_eq!(
        err("1.2.3"),
        Error::InvalidNumber { line: 0, col: 5, text: "1.2.3".to_string() }
    );
}

#[test]
fn evaulate_renders_tree() {
    let e = Expr::Binary(
        Box::new(Expr::Unary(Box::new(Expr::Sym('a')), UnaryOp::Sub)),
        Box::new(Expr::Func(Func::Sqrt, vec![Expr::Val("2".to_string())])),
        BinaryOp::Pow,
    );
    assert_eq!(evaulate(&e), "{-{{a}}} ^ {\\sqrt{{2}}}");
    assert_eq!(evaulate(&Expr::Dots()), "{{{\\dots}}}");
}
