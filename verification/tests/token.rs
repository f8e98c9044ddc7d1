use cute_lib::token::{tokenize, LexError, LexErrorKind, Lexer, Token, TokenKind};

fn lines(source: &[&str]) -> Vec<String> {
    source.iter().map(|line| line.to_string()).collect()
}

fn eol() -> Token {
    Token::new(TokenKind::EndOfLine, "EOL")
}

fn eof() -> Token {
    Token::new(TokenKind::EndOfFile, "EOF")
}

#[test]
fn create_token() {
    let token = Token::new(TokenKind::Number, "9");
    assert_eq!((token.kind(), token.value()), (&TokenKind::Number, &"9".to_string()));
}

#[test]
fn create_empty_lexer() {
    assert_eq!(Lexer::new(vec![]), Lexer { tokens: vec![], source: vec![], loc: (0, 0) });
}

#[test]
fn create_lexer_with_source() {
    assert_eq!(
        Lexer::new(vec!["9".to_string(), "30 + 2".to_string()]),
        Lexer { tokens: vec![], source: vec!["9".to_string(), "30 + 2".to_string()], loc: (0, 0) }
    );
}

#[test]
fn tokenize_number() {
    let source = vec!["3209".to_string()];
    let token = tokenize(source).unwrap();
    assert_eq!(token, vec![Token::new(TokenKind::Number, "3209"), eol(), eof()]);
}

#[test]
fn tokenize_plus() {
    let source = vec!["+".to_string()];
    let token = tokenize(source).unwrap();
    assert_eq!(token, vec![Token::new(TokenKind::Plus, "+"), eol(), eof()]);
}

#[test]
fn tokenize_dash() {
    let source = vec!["-".to_string()];
    let token = tokenize(source).unwrap();
    assert_eq!(token, vec![Token::new(TokenKind::Minus, "-"), eol(), eof()]);
}

#[test]
fn tokenize_star() {
    let source = vec!["*".to_string()];
    let token = tokenize(source).unwrap();
    assert_eq!(token, vec![Token::new(TokenKind::Mul, "*"), eol(), eof()]);
}

#[test]
fn tokenize_all() {
    let source =
        vec!["9".to_string(), "30 + 2".to_string(), "- 3".to_string(), "4 * 3".to_string()];
    let tokens = tokenize(source).unwrap();
    assert_eq!(
        tokens,
        vec![
            Token::new(TokenKind::Number, "9"),
            eol(),
            Token::new(TokenKind::Number, "30"),
            Token::new(TokenKind::Plus, "+"),
            Token::new(TokenKind::Number, "2"),
            eol(),
            Token::new(TokenKind::Minus, "-"),
            Token::new(TokenKind::Number, "3"),
            eol(),
            Token::new(TokenKind::Number, "4"),
            Token::new(TokenKind::Mul, "*"),
            Token::new(TokenKind::Number, "3"),
            eol(),
            eof()
        ]
    );
}

#[test]
fn tokenize_nothing_gives_the_end_of_file_alone() {
    assert_eq!(tokenize(vec![]), Ok(vec![eof()]));
    assert_eq!(tokenize(lines(&["", "   ", "\t"])), Ok(vec![eof()]));
}

#[test]
fn tokenize_slash_and_assignment() {
    assert_eq!(
        tokenize(lines(&["8 / 2", "="])),
        Ok(vec![
            Token::new(TokenKind::Number, "8"),
            Token::new(TokenKind::Div, "/"),
            Token::new(TokenKind::Number, "2"),
            eol(),
            Token::new(TokenKind::Assignment, "="),
            eol(),
            eof()
        ])
    );
}

#[test]
fn tokenize_quoted_name_loses_its_quotes() {
    assert_eq!(
        tokenize(lines(&["\"total\" + \"\""])),
        Ok(vec![
            Token::new(TokenKind::Symbol, "total"),
            Token::new(TokenKind::Plus, "+"),
            Token::new(TokenKind::Symbol, ""),
            eol(),
            eof()
        ])
    );
}

#[test]
fn tokenize_let_binds_the_next_word() {
    assert_eq!(
        tokenize(lines(&["let i = 10 + 3", "let! total = 4"])),
        Ok(vec![
            Token::new(TokenKind::Let, "let"),
            Token::new(TokenKind::Binding, "i"),
            Token::new(TokenKind::Assignment, "="),
            Token::new(TokenKind::Number, "10"),
            Token::new(TokenKind::Plus, "+"),
            Token::new(TokenKind::Number, "3"),
            eol(),
            Token::new(TokenKind::MutLet, "let!"),
            Token::new(TokenKind::Binding, "total"),
            Token::new(TokenKind::Assignment, "="),
            Token::new(TokenKind::Number, "4"),
            eol(),
            eof()
        ])
    );
}

#[test]
fn tokenize_word_after_let_keeps_its_own_kind_if_it_has_one() {
    assert_eq!(
        tokenize(lines(&["let 5", "let a;b", "let //x"])),
        Ok(vec![
            Token::new(TokenKind::Let, "let"),
            Token::new(TokenKind::Number, "5"),
            eol(),
            Token::new(TokenKind::Let, "let"),
            Token::new(TokenKind::Binding, "a;b"),
            eol(),
            Token::new(TokenKind::Let, "let"),
            Token::new(TokenKind::Binding, "//x"),
            eol(),
            eof()
        ])
    );
}

#[test]
fn tokenize_let_at_the_end_of_a_line_binds_nothing_on_the_next() {
    assert_eq!(
        tokenize(lines(&["let", "i"])),
        Err(LexError { kind: LexErrorKind::Unclassifiable, text: "i".to_string() })
    );
}

#[test]
fn tokenize_keyword_as_name_fails() {
    assert_eq!(
        tokenize(lines(&["let let = 1"])),
        Err(LexError { kind: LexErrorKind::KeywordAsName, text: "let".to_string() })
    );
    assert_eq!(
        tokenize(lines(&["let! let!"])),
        Err(LexError { kind: LexErrorKind::KeywordAsName, text: "let!".to_string() })
    );
    assert_eq!(
        tokenize(lines(&["1", "let let!"])),
        Err(LexError { kind: LexErrorKind::KeywordAsName, text: "let!".to_string() })
    );
}

#[test]
fn tokenize_semicolon_fails() {
    assert_eq!(
        tokenize(lines(&["1 + 2 ;"])),
        Err(LexError { kind: LexErrorKind::Semicolon, text: ";".to_string() })
    );
    assert_eq!(
        tokenize(lines(&["1 + 2;"])),
        Err(LexError { kind: LexErrorKind::Semicolon, text: "2;".to_string() })
    );
}

#[test]
fn tokenize_unknown_word_fails() {
    assert_eq!(
        tokenize(lines(&["1 + two"])),
        Err(LexError { kind: LexErrorKind::Unclassifiable, text: "two".to_string() })
    );
    assert_eq!(
        tokenize(lines(&["1+2"])),
        Err(LexError { kind: LexErrorKind::Unclassifiable, text: "1+2".to_string() })
    );
    assert_eq!(
        tokenize(lines(&["99999999999999999999"])),
        Err(LexError {
            kind: LexErrorKind::Unclassifiable,
            text: "99999999999999999999".to_string()
        })
    );
}

#[test]
fn tokenize_reports_the_first_error() {
    assert_eq!(
        tokenize(lines(&["1", "x ;", "y"])),
        Err(LexError { kind: LexErrorKind::Unclassifiable, text: "x".to_string() })
    );
}

#[test]
fn tokenize_drops_comments() {
    assert_eq!(
        tokenize(lines(&["// a comment", "1 + 2 // more ; words", "3// x", "   //"])),
        Ok(vec![
            Token::new(TokenKind::Number, "1"),
            Token::new(TokenKind::Plus, "+"),
            Token::new(TokenKind::Number, "2"),
            eol(),
            Token::new(TokenKind::Number, "3"),
            eol(),
            eof()
        ])
    );
}

#[test]
fn tokenize_checks_what_stands_before_a_comment() {
    assert_eq!(
        tokenize(lines(&["x//y"])),
        Err(LexError { kind: LexErrorKind::Unclassifiable, text: "x".to_string() })
    );
    assert_eq!(
        tokenize(lines(&[";// y"])),
        Err(LexError { kind: LexErrorKind::Semicolon, text: ";".to_string() })
    );
    assert_eq!(
        tokenize(lines(&["\"a//b\""])),
        Ok(vec![Token::new(TokenKind::Symbol, "a//b"), eol(), eof()])
    );
}

#[test]
fn lexer_reads_line_by_line() {
    let mut lexer = Lexer::new(lines(&["let x", "", "7"]));
    assert_eq!(lexer.previous(), None);
    assert_eq!(lexer.read_line(), Ok(()));
    assert_eq!(lexer.loc, (1, 0));
    assert_eq!(lexer.previous(), Some(TokenKind::EndOfLine));
    assert_eq!(lexer.tokens.len(), 3);
    assert_eq!(lexer.read_line(), Ok(()));
    assert_eq!(lexer.tokens.len(), 3);
    assert_eq!(lexer.read_line(), Ok(()));
    assert_eq!(lexer.loc, (3, 0));
    lexer.push_token(eof());
    assert_eq!(lexer.previous(), Some(TokenKind::EndOfFile));
    assert_eq!(lexer.tokens.len(), 6);
}
