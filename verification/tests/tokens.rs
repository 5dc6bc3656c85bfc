use lox_scanner::errors::Fault;
use lox_scanner::errors::ScannerError;
use lox_scanner::scanner::Scanner;
use lox_scanner::text::slice;
use lox_scanner::token::same_text;
use lox_scanner::token::Range;
use lox_scanner::token::Token;
use lox_scanner::token::TokenType;

#[test]
fn range_keeps_its_ends() {
    let range = Range::new(3, 8);
    assert_eq!(range.start, 3);
    assert_eq!(range.end, 8);
    assert_eq!(range, Range { start: 3, end: 8 });
}

#[test]
fn source_span_is_offset_and_length() {
    let span = Range::new(3, 8).source_span();
    assert_eq!(span.offset(), 3);
    assert_eq!(span.len(), 5);

    let span = Range::new(7, 7).source_span();
    assert_eq!(span.offset(), 7);
    assert_eq!(span.len(), 0);
    assert!(span.is_empty());
}

#[test]
fn token_keeps_its_parts() {
    let token = Token::new(TokenType::Identifier("abc"), "abc", Range::new(4, 7));
    assert_eq!(token.token_type, TokenType::Identifier("abc"));
    assert_eq!(token.literal, "abc");
    assert_eq!(token.range, Range::new(4, 7));
}

#[test]
fn every_keyword_is_found() {
    let table = [
        ("and", TokenType::And),
        ("class", TokenType::Class),
        ("else", TokenType::Else),
        ("false", TokenType::False),
        ("fun", TokenType::Fun),
        ("for", TokenType::For),
        ("if", TokenType::If),
        ("nil", TokenType::Nil),
        ("or", TokenType::Or),
        ("print", TokenType::Print),
        ("return", TokenType::Return),
        ("super", TokenType::Super),
        ("this", TokenType::This),
        ("true", TokenType::True),
        ("var", TokenType::Var),
        ("while", TokenType::While),
    ];
    for (word, kind) in table {
        assert_eq!(TokenType::get_token_type(word), kind);
    }
}

#[test]
fn other_words_are_identifiers() {
    for word in ["foo", "And", "WHILE", "whil", "whilex", "_", "_or", "for1", "nil_", ""] {
        assert_eq!(TokenType::get_token_type(word), TokenType::Identifier(word));
    }
}

#[test]
fn symbol_spells_each_kind() {
    let table = [
        (TokenType::LeftParen, "("),
        (TokenType::RightParen, ")"),
        (TokenType::LeftBrace, "{"),
        (TokenType::RightBrace, "}"),
        (TokenType::Comma, ","),
        (TokenType::Dot, "."),
        (TokenType::Minus, "-"),
        (TokenType::Plus, "+"),
        (TokenType::Semicolon, ";"),
        (TokenType::Slash, "/"),
        (TokenType::Star, "*"),
        (TokenType::Bang, "!"),
        (TokenType::BangEqual, "!="),
        (TokenType::Equal, "="),
        (TokenType::EqualEqual, "=="),
        (TokenType::Greater, ">"),
        (TokenType::GreaterEqual, ">="),
        (TokenType::Less, "<"),
        (TokenType::LessEqual, "<="),
        (TokenType::Identifier("name"), "name"),
        (TokenType::String("some text"), "some text"),
        (TokenType::Number("12.50"), "12.50"),
        (TokenType::And, "and"),
        (TokenType::Class, "class"),
        (TokenType::Else, "else"),
        (TokenType::False, "false"),
        (TokenType::Fun, "fun"),
        (TokenType::For, "for"),
        (TokenType::If, "if"),
        (TokenType::Nil, "nil"),
        (TokenType::Or, "or"),
        (TokenType::Print, "print"),
        (TokenType::Return, "return"),
        (TokenType::Super, "super"),
        (TokenType::This, "this"),
        (TokenType::True, "true"),
        (TokenType::Var, "var"),
        (TokenType::While, "while"),
        (TokenType::Eof, "eof"),
    ];
    for (kind, text) in table {
        assert_eq!(kind.symbol(), text);
    }
}

#[test]
fn symbols_of_scanned_tokens_spell_the_source() {
    let tokens = Scanner::new("if (a >= 10) { print \"big\"; }")
        .scan_tokens()
        .unwrap();
    let spelled: Vec<&str> = tokens.iter().map(|token| token.token_type.symbol()).collect();
    assert_eq!(
        spelled,
        vec!["if", "(", "a", ">=", "10", ")", "{", "print", "big", ";", "}", "eof"]
    );
}

#[test]
fn same_text_compares_bytes() {
    assert!(same_text("", ""));
    assert!(same_text("while", "while"));
    assert!(!same_text("while", "whilex"));
    assert!(!same_text("whilex", "while"));
    assert!(!same_text("abc", "abd"));
    assert!(!same_text("", "a"));
    assert!(same_text("h\u{e9}", "h\u{e9}"));
    assert!(!same_text("h\u{e9}", "h\u{e8}"));
}

#[test]
fn slice_takes_the_bytes_between() {
    let source = "print \"h\u{e9}llo\";";
    assert_eq!(slice(source, 0, 5), "print");
    assert_eq!(slice(source, 6, 14), "\"h\u{e9}llo\"");
    assert_eq!(slice(source, 7, 13), "h\u{e9}llo");
    assert_eq!(slice(source, 8, 10), "\u{e9}");
    assert_eq!(slice(source, 4, 4), "");
    assert_eq!(slice(source, 0, source.len()), source);
    assert_eq!(slice(source, source.len(), source.len()), "");
}

#[test]
fn string_literal_keeps_text_of_any_kind() {
    let source = "\"h\u{e9}llo\\n\nw\u{f6}rld\" x";
    let tokens = Scanner::new(source).scan_tokens().unwrap();
    assert_eq!(tokens.len(), 3);
    assert_eq!(
        tokens[0].token_type,
        TokenType::String("h\u{e9}llo\\n\nw\u{f6}rld")
    );
    assert_eq!(tokens[0].range, Range::new(0, 17));
    assert_eq!(tokens[0].literal, &source[0..17]);
    assert_eq!(tokens[1].token_type, TokenType::Identifier("x"));
    assert_eq!(tokens[1].range, Range::new(18, 19));
}

#[test]
fn comment_runs_to_the_end_of_its_line() {
    let tokens = Scanner::new("1 // two \u{e9} \"three\n4").scan_tokens().unwrap();
    assert_eq!(tokens.len(), 3);
    assert_eq!(tokens[0].token_type, TokenType::Number("1"));
    assert_eq!(tokens[1].token_type, TokenType::Number("4"));
    assert_eq!(tokens[1].range, Range::new(19, 20));

    let tokens = Scanner::new("// nothing else").scan_tokens().unwrap();
    assert_eq!(tokens.len(), 1);
    assert_eq!(tokens[0].token_type, TokenType::Eof);
    assert_eq!(tokens[0].range, Range::new(15, 15));

    let tokens = Scanner::new("/ /").scan_tokens().unwrap();
    assert_eq!(tokens.len(), 3);
    assert_eq!(tokens[0].token_type, TokenType::Slash);
    assert_eq!(tokens[1].token_type, TokenType::Slash);
}

#[test]
fn identifiers_take_letters_digits_and_underscores() {
    let tokens = Scanner::new("_a1 b_2c 3d").scan_tokens().unwrap();
    let kinds: Vec<TokenType> = tokens.iter().map(|token| token.token_type).collect();
    assert_eq!(
        kinds,
        vec![
            TokenType::Identifier("_a1"),
            TokenType::Identifier("b_2c"),
            TokenType::Number("3"),
            TokenType::Identifier("d"),
            TokenType::Eof,
        ]
    );
}

#[test]
fn error_of_each_kind_can_be_made() {
    let span = Range::new(2, 6).source_span();
    let error = ScannerError::new(Fault::IllegalToken, String::from("ab cdef"), span);
    assert!(matches!(error, ScannerError::IllegalToken { .. }));
    let error = ScannerError::new(Fault::UnterminatedString, String::from("ab cdef"), span);
    assert!(matches!(error, ScannerError::UnterminatedString { .. }));
    let error = ScannerError::new(Fault::NumberConversion, String::from("ab cdef"), span);
    match &error {
        ScannerError::NumberConversion { src, span } => {
            assert_eq!(src, "ab cdef");
            assert_eq!(span.offset(), 2);
            assert_eq!(span.len(), 4);
        }
        _ => panic!("wrong kind of error"),
    }
    let copy = error.clone();
    match copy {
        ScannerError::NumberConversion { src, span } => {
            assert_eq!(src, "ab cdef");
            assert_eq!(span.offset(), 2);
            assert_eq!(span.len(), 4);
        }
        _ => panic!("wrong kind of error"),
    }
}
