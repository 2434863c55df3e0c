use toylang::lexer::{tokenize, Lexer, Token};

fn ident(s: &str) -> Token {
    Token::Identifier(s.to_string())
}

#[test]
fn single_identifier_then_end() {
    let mut lexer = Lexer::new("a");
    assert_eq!(lexer.next_token(), ident("a"));
    assert_eq!(lexer.next_token(), Token::Eof);
    assert_eq!(lexer.next_token(), Token::Eof);
    assert_eq!(tokenize("a"), vec![ident("a")]);
}

#[test]
fn integer_literal() {
    assert_eq!(tokenize("123"), vec![Token::IntLiteral(123)]);
    assert_eq!(tokenize("0"), vec![Token::IntLiteral(0)]);
    assert_eq!(tokenize("007"), vec![Token::IntLiteral(7)]);
}

#[test]
fn integer_literal_limits() {
    assert_eq!(tokenize("2147483647"), vec![Token::IntLiteral(2147483647)]);
    assert_eq!(tokenize("2147483648"), vec![Token::IntLiteral(0)]);
    assert_eq!(tokenize("99999999999999999999"), vec![Token::IntLiteral(0)]);
    assert_eq!(tokenize("12 34"), vec![Token::IntLiteral(12), Token::IntLiteral(34)]);
}

#[test]
fn doubled_and_single_symbols() {
    assert_eq!(tokenize("&&"), vec![Token::DoubleAmpersand]);
    assert_eq!(tokenize("&"), vec![Token::Ampersand]);
    assert_eq!(tokenize("&a"), vec![Token::Ampersand, ident("a")]);
    assert_eq!(tokenize("& &"), vec![Token::Ampersand, Token::Ampersand]);
    assert_eq!(tokenize("&&&"), vec![Token::DoubleAmpersand, Token::Ampersand]);
    assert_eq!(tokenize("||"), vec![Token::DoubleVerticalBar]);
    assert_eq!(tokenize("|x"), vec![Token::VerticalBar, ident("x")]);
    assert_eq!(tokenize("//"), vec![Token::Comment]);
    assert_eq!(tokenize("/ 2"), vec![Token::Slash, Token::IntLiteral(2)]);
}

#[test]
fn flat_brace_pairs() {
    let tokens = tokenize("{}{}{}");
    assert_eq!(tokens.iter().filter(|t| **t == Token::IdentifierClosed).count(), 3);
    assert_eq!(tokens.iter().filter(|t| **t == Token::RightBrace).count(), 0);
    assert_eq!(
        tokens,
        vec![
            Token::LeftBrace,
            Token::IdentifierClosed,
            Token::LeftBrace,
            Token::IdentifierClosed,
            Token::LeftBrace,
            Token::IdentifierClosed,
        ]
    );
    assert_eq!(tokenize(""), vec![]);
}

#[test]
fn nested_braces() {
    assert_eq!(
        tokenize("{{}}"),
        vec![Token::LeftBrace, Token::LeftBrace, Token::RightBrace, Token::IdentifierClosed]
    );
    assert_eq!(
        tokenize("{ { } { } } {}"),
        vec![
            Token::LeftBrace,
            Token::LeftBrace,
            Token::RightBrace,
            Token::LeftBrace,
            Token::RightBrace,
            Token::IdentifierClosed,
            Token::LeftBrace,
            Token::IdentifierClosed,
        ]
    );
}

#[test]
fn unmatched_closing_brace() {
    assert_eq!(
        tokenize("}{}"),
        vec![Token::RightBrace, Token::LeftBrace, Token::IdentifierClosed]
    );
}

#[test]
fn keywords_and_type_names() {
    assert_eq!(
        tokenize("fun struct var const int float return"),
        vec![
            Token::Fun,
            Token::Struct,
            Token::Var,
            Token::Const,
            Token::IntType,
            Token::FloatType,
            Token::Return,
        ]
    );
    assert_eq!(tokenize("funny"), vec![ident("funny")]);
    assert_eq!(tokenize("integer"), vec![ident("integer")]);
}

#[test]
fn identifiers_with_digits_underscores_and_letters_beyond_ascii() {
    assert_eq!(tokenize("foo_bar1"), vec![ident("foo_bar1")]);
    assert_eq!(tokenize("a1"), vec![ident("a1")]);
    assert_eq!(tokenize("été"), vec![ident("été")]);
    assert_eq!(tokenize("x_ y"), vec![ident("x_"), ident("y")]);
}

#[test]
fn punctuation_and_operators() {
    assert_eq!(
        tokenize(":(),;.=+-*%!<>"),
        vec![
            Token::Colon,
            Token::LeftParen,
            Token::RightParen,
            Token::Comma,
            Token::Semicolon,
            Token::Dot,
            Token::Equals,
            Token::Plus,
            Token::Minus,
            Token::Asterisk,
            Token::Percent,
            Token::Exclamation,
            Token::LessThan,
            Token::GreaterThan,
        ]
    );
}

#[test]
fn newline_is_a_token() {
    assert_eq!(tokenize("a\nb"), vec![ident("a"), Token::LineEnd, ident("b")]);
    assert_eq!(tokenize("   \n"), vec![Token::LineEnd]);
}

#[test]
fn unknown_character_ends_input() {
    assert_eq!(tokenize("a # b"), vec![ident("a")]);
    assert_eq!(tokenize("\t a"), vec![]);
    let mut lexer = Lexer::new("#");
    assert_eq!(lexer.next_token(), Token::Eof);
    assert_eq!(lexer.next_token(), Token::Eof);
}

#[test]
fn tokenizing_twice_gives_the_same_tokens() {
    let source = "fun add(a: int, b: int): int { result = a + b; } // done\n";
    let first = tokenize(source);
    let second = Lexer::new(source).analyse_source();
    assert_eq!(first, second);
    assert_eq!(first.len(), 24);
}

#[test]
fn token_duplicate_and_label() {
    let t = ident("name");
    assert_eq!(t.duplicate(), t);
    assert_eq!(Token::IntLiteral(5).duplicate(), Token::IntLiteral(5));
    assert_eq!(t.label(), "Identifier");
    assert_eq!(Token::IdentifierClosed.label(), "IdentifierClosed");
}
