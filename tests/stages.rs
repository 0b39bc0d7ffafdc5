use mathovi::error::Error;
use mathovi::expression::{BinaryOp, Expr, Func};
use mathovi::lexer::{print_vec_tokens, Lexer, Token, TokenKind};
use mathovi::parser::Parser;

fn tokens(text: &str) -> Vec<Token> {
    Lexer::new(text).tokenize().unwrap()
}

#[test]
fn lexer_reports_lines_and_columns() {
    let ts = tokens("a +\n  bc(");
    assert_eq!(ts.len(), 4);
    assert_eq!(ts[0], Token { line: 0, col: 1, size: 1, kind: TokenKind::Identifier("a".to_string()) });
    assert_eq!(ts[1], Token { line: 0, col: 3, size: 1, kind: TokenKind::Plus });
    assert_eq!(ts[2], Token { line: 1, col: 4, size: 2, kind: TokenKind::Identifier("bc".to_string()) });
    assert_eq!(ts[3], Token { line: 1, col: 5, size: 1, kind: TokenKind::ParenOpen });
}

#[test]
fn lexer_maps_punctuation() {
    let kinds: Vec<TokenKind> = tokens("+-*/^()=;,.").into_iter().map(|t| t.kind).collect();
    assert_eq!(
        kinds,
        vec![
            TokenKind::Plus,
            TokenKind::Minus,
            TokenKind::Multiply,
            TokenKind::Divider,
            TokenKind::Power,
            TokenKind::ParenOpen,
            TokenKind::ParenClose,
            TokenKind::Equals,
            TokenKind::End,
            TokenKind::Comma,
            TokenKind::Dot,
        ]
    );
}

#[test]
fn lexer_reads_identifiers_and_numerals() {
    let kinds: Vec<TokenKind> = tokens("_x1 Sqrt 12.50").into_iter().map(|t| t.kind).collect();
    assert_eq!(
        kinds,
        vec![
            TokenKind::Identifier("_x1".to_string()),
            TokenKind::Identifier("Sqrt".to_string()),
            TokenKind::Number("12.5".to_string()),
        ]
    );
}

#[test]
fn lexer_skips_unicode_white_space() {
    let kinds: Vec<TokenKind> = tokens("a\u{00A0}\tb").into_iter().map(|t| t.kind).collect();
    assert_eq!(
        kinds,
        vec![TokenKind::Identifier("a".to_string()), TokenKind::Identifier("b".to_string())]
    );
}

#[test]
fn lexer_peek_and_next_track_position() {
    let mut lexer = Lexer::new("x\ny");
    assert_eq!(lexer.peek(), Some('x'));
    assert_eq!(lexer.next(), Some('x'));
    assert_eq!(lexer.next(), Some('\n'));
    assert_eq!(lexer.peek(), Some('y'));
    assert_eq!(lexer.next(), Some('y'));
    assert_eq!(lexer.next(), None);
    assert_eq!(lexer.peek(), None);
}

#[test]
fn parser_builds_trees() {
    let mut parser = Parser::new(tokens("a = b * 2; sin(x)"));
    let exprs = parser.parse_all().unwrap();
    assert_eq!(
        exprs,
        vec![
            Expr::Binary(
                Box::new(Expr::Sym('a')),
                Box::new(Expr::Binary(
                    Box::new(Expr::Sym('b')),
                    Box::new(Expr::Val("2".to_string())),
                    BinaryOp::Mult
                )),
                BinaryOp::Equals
            ),
            Expr::Func(Func::Sin, vec![Expr::Sym('x')]),
        ]
    );
}

#[test]
fn parser_parses_dots() {
    let mut parser = Parser::new(tokens("..."));
    assert_eq!(parser.parse_all().unwrap(), vec![Expr::Dots()]);
}

#[test]
fn parser_reports_empty_statement() {
    let mut parser = Parser::new(tokens("a;;"));
    match parser.parse_all() {
        Err(Error::UnexpectedToken { found, .. }) => assert_eq!(found.kind, TokenKind::End),
        r => panic!("unexpected {:?}", r),
    }
}

#[test]
fn token_precedence_levels() {
    assert!(TokenKind::Equals.takes_precedence(0));
    assert!(TokenKind::Plus.takes_precedence(1));
    assert!(TokenKind::Minus.takes_precedence(1));
    assert!(TokenKind::Multiply.takes_precedence(2));
    assert!(TokenKind::Divider.takes_precedence(2));
    assert!(TokenKind::Power.takes_precedence(2));
    assert!(!TokenKind::Power.takes_precedence(1));
    assert!(!TokenKind::Comma.takes_precedence(0));
}

#[test]
fn functions_take_one_argument() {
    assert_eq!(Func::Sqrt.nr_of_args(), 1);
    assert_eq!(Func::Sin.nr_of_args(), 1);
    assert_eq!(Func::Cos.nr_of_args(), 1);
}

#[test]
fn function_names_ignore_case() {
    assert_eq!(Func::from_name("SQRT"), Ok(Func::Sqrt));
    assert_eq!(Func::from_name("Sin"), Ok(Func::Sin));
    assert_eq!(Func::from_name("cos"), Ok(Func::Cos));
    assert_eq!(Func::from_name("Tan"), Err("tan".to_string()));
}

#[test]
fn token_constructors() {
    let t = Token::new(TokenKind::Plus, 2, 3, 1);
    assert_eq!(t, Token { line: 2, col: 3, size: 1, kind: TokenKind::Plus });
    assert_eq!(Token::some(TokenKind::Dot, 0, 1, 1), Some(Token { line: 0, col: 1, size: 1, kind: TokenKind::Dot }));
    assert!(Expr::Val("1".to_string()).is_val());
    assert!(!Expr::Sym('x').is_val());
}

#[test]
fn token_kinds_read_as_text() {
    assert_eq!(TokenKind::Number("2.5".to_string()).to_text(), "2.5");
    assert_eq!(TokenKind::Identifier("sin".to_string()).to_text(), "sin");
    assert_eq!(TokenKind::End.to_text(), ";");
    assert_eq!(TokenKind::ParenClose.to_text(), ")");
    assert_eq!(
        print_vec_tokens(&vec![TokenKind::Dot, TokenKind::Minus, TokenKind::Number("0".to_string())]),
        ".-0"
    );
    assert_eq!(print_vec_tokens(&vec![]), "");
}
