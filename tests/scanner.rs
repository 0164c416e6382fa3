use clox::scanner::{LexError, Scanner, TokenKind};

#[test]
fn test_scanner_basic() {
    let source = "(";
    let mut scanner = Scanner::new(source);

    let token = scanner.scan_token();

    assert!(token.kind == TokenKind::LeftParen);
}

#[test]
fn test_scanner() {
    let source = "({;,.-+/*})";
    let mut scanner = Scanner::new(source);

    let mut idx = 0;
    let expected = [
        TokenKind::LeftParen,
        TokenKind::LeftBrace,
        TokenKind::Semicolon,
        TokenKind::Comma,
        TokenKind::Dot,
        TokenKind::Minus,
        TokenKind::Plus,
        TokenKind::Slash,
        TokenKind::Star,
        TokenKind::RightBrace,
        TokenKind::RightParen,
    ];
    while !scanner.is_at_end() {
        let token = scanner.scan_token();

        assert!(token.kind == expected[idx]);

        idx += 1;
    }
}

fn kinds(source: &str) -> Vec<TokenKind> {
    let mut scanner = Scanner::new(source);
    let mut out = Vec::new();
    loop {
        let token = scanner.scan_token();
        out.push(token.kind);
        if token.kind == TokenKind::Eof {
            return out;
        }
    }
}

#[test]
fn punctuation_then_eof() {
    let k = kinds("({;,.-+/*})");
    assert_eq!(k.len(), 12);
    assert_eq!(k[11], TokenKind::Eof);
}

#[test]
fn eof_is_repeated() {
    let mut scanner = Scanner::new("  ");
    assert_eq!(scanner.scan_token().kind, TokenKind::Eof);
    assert_eq!(scanner.scan_token().kind, TokenKind::Eof);
}

#[test]
fn two_char_operators() {
    assert_eq!(
        kinds("! != = == < <= > >="),
        vec![
            TokenKind::Bang,
            TokenKind::BangEqual,
            TokenKind::Equal,
            TokenKind::EqualEqual,
            TokenKind::Less,
            TokenKind::LessEqual,
            TokenKind::Greater,
            TokenKind::GreaterEqual,
            TokenKind::Eof,
        ]
    );
}

#[test]
fn keywords_and_identifiers() {
    assert_eq!(
        kinds("and class else false for fun if nil or print return super this true var while"),
        vec![
            TokenKind::And,
            TokenKind::Class,
            TokenKind::Else,
            TokenKind::False,
            TokenKind::For,
            TokenKind::Fun,
            TokenKind::If,
            TokenKind::Nil,
            TokenKind::Or,
            TokenKind::Print,
            TokenKind::Return,
            TokenKind::Super,
            TokenKind::This,
            TokenKind::True,
            TokenKind::Var,
            TokenKind::While,
            TokenKind::Eof,
        ]
    );
    assert_eq!(
        kinds("an andy f fo t th _x x1 truth"),
        vec![TokenKind::Identifier; 9]
            .into_iter()
            .chain(std::iter::once(TokenKind::Eof))
            .collect::<Vec<_>>()
    );
}

#[test]
fn numbers_and_trailing_dot() {
    let mut scanner = Scanner::new("12.5 7.");
    let a = scanner.scan_token();
    assert_eq!(a.kind, TokenKind::Number);
    assert_eq!((a.start, a.length), (0, 4));
    let b = scanner.scan_token();
    assert_eq!(b.kind, TokenKind::Number);
    assert_eq!((b.start, b.length), (5, 1));
    assert_eq!(scanner.scan_token().kind, TokenKind::Dot);
    assert_eq!(scanner.scan_token().kind, TokenKind::Eof);
}

#[test]
fn comments_and_lines() {
    let mut scanner = Scanner::new("// note\n\n  1 // tail");
    let t = scanner.scan_token();
    assert_eq!(t.kind, TokenKind::Number);
    assert_eq!(t.line, 3);
    assert_eq!(t.lexeme(), b"1");
    assert_eq!(scanner.scan_token().kind, TokenKind::Eof);
}

#[test]
fn strings_count_lines() {
    let mut scanner = Scanner::new("\"a\nb\" x");
    let t = scanner.scan_token();
    assert_eq!(t.kind, TokenKind::String);
    assert_eq!(t.line, 2);
    assert_eq!(t.lexeme(), b"\"a\nb\"");
    assert_eq!(scanner.scan_token().kind, TokenKind::Identifier);
}

#[test]
fn unterminated_string_is_error_token() {
    let mut scanner = Scanner::new("\"abc");
    let t = scanner.scan_token();
    assert_eq!(t.kind, TokenKind::Error);
    assert_eq!(t.error, Some(LexError::UnterminatedString));
    assert_eq!(t.error.unwrap().message(), "Unterminated string");
    assert_eq!(scanner.scan_token().kind, TokenKind::Eof);
}

#[test]
fn unexpected_character() {
    let mut scanner = Scanner::new("@1");
    let t = scanner.scan_token();
    assert_eq!(t.kind, TokenKind::Error);
    assert_eq!(t.error, Some(LexError::UnexpectedCharacter));
    assert_eq!(t.error.unwrap().message(), "Unexpected character.");
    assert_eq!(scanner.scan_token().kind, TokenKind::Number);
}
