use lox_scanner::errors::Fault;
use lox_scanner::errors::ScannerError;
use lox_scanner::scanner::number_literals;
use lox_scanner::scanner::scan_valued;
use lox_scanner::scanner::Scanner;
use lox_scanner::token::Range;
use lox_scanner::token::Token;
use lox_scanner::token::TokenType;

fn scan(source: &str) -> Result<Vec<Token<'_>>, Vec<ScannerError>> {
    Scanner::new(source).scan_tokens()
}

fn kinds<'a>(tokens: &[Token<'a>]) -> Vec<TokenType<'a>> {
    tokens.iter().map(|token| token.token_type).collect()
}

fn fault_of(error: &ScannerError) -> Fault {
    match error {
        ScannerError::IllegalToken { .. } => Fault::IllegalToken,
        ScannerError::UnterminatedString { .. } => Fault::UnterminatedString,
        ScannerError::NumberConversion { .. } => Fault::NumberConversion,
    }
}

fn place_of(error: &ScannerError) -> (usize, usize) {
    match error {
        ScannerError::IllegalToken { span, .. }
        | ScannerError::UnterminatedString { span, .. }
        | ScannerError::NumberConversion { span, .. } => (span.offset(), span.len()),
    }
}

fn source_of(error: &ScannerError) -> &str {
    match error {
        ScannerError::IllegalToken { src, .. }
        | ScannerError::UnterminatedString { src, .. }
        | ScannerError::NumberConversion { src, .. } => src,
    }
}

#[test]
fn blank_source_gives_only_the_end_token() {
    for source in ["", " ", "\t", "\r\n", "  \t \r\n\n   "] {
        let tokens = scan(source).expect("blank space is no error");
        assert_eq!(tokens.len(), 1);
        assert_eq!(tokens[0].token_type, TokenType::Eof);
        assert_eq!(tokens[0].literal, "");
        assert_eq!(tokens[0].range, Range::new(source.len(), source.len()));
    }
}

#[test]
fn token_ranges_do_not_overlap_and_end_with_the_end_token() {
    let source = "var answer = (40 + 2) / 1.5; // done\nprint \"ok\";";
    let tokens = scan(source).expect("the source is well formed");
    for token in &tokens {
        assert!(token.range.start <= token.range.end);
        assert!(token.range.end <= source.len());
        assert_eq!(token.literal, &source[token.range.start..token.range.end]);
    }
    for pair in tokens.windows(2) {
        assert!(pair[0].range.end <= pair[1].range.start);
        assert!(pair[0].range.start <= pair[1].range.start);
    }
    let last = tokens.last().unwrap();
    assert_eq!(last.token_type, TokenType::Eof);
    assert_eq!(last.range, Range::new(source.len(), source.len()));
    assert_eq!(
        kinds(&tokens),
        vec![
            TokenType::Var,
            TokenType::Identifier("answer"),
            TokenType::Equal,
            TokenType::LeftParen,
            TokenType::Number("40"),
            TokenType::Plus,
            TokenType::Number("2"),
            TokenType::RightParen,
            TokenType::Slash,
            TokenType::Number("1.5"),
            TokenType::Semicolon,
            TokenType::Print,
            TokenType::String("ok"),
            TokenType::Semicolon,
            TokenType::Eof,
        ]
    );
}

#[test]
fn bang_equal_is_one_token() {
    let tokens = scan("!=").unwrap();
    assert_eq!(kinds(&tokens), vec![TokenType::BangEqual, TokenType::Eof]);
    assert_eq!(tokens[0].literal, "!=");
    assert_eq!(tokens[0].range, Range::new(0, 2));
    assert_eq!(tokens[1].range, Range::new(2, 2));
}

#[test]
fn two_byte_operators_win_over_one_byte_operators() {
    let tokens = scan("! != = == < <= > >= =! =<").unwrap();
    assert_eq!(
        kinds(&tokens),
        vec![
            TokenType::Bang,
            TokenType::BangEqual,
            TokenType::Equal,
            TokenType::EqualEqual,
            TokenType::Less,
            TokenType::LessEqual,
            TokenType::Greater,
            TokenType::GreaterEqual,
            TokenType::Equal,
            TokenType::Bang,
            TokenType::Equal,
            TokenType::Less,
            TokenType::Eof,
        ]
    );
    let tokens = scan("===").unwrap();
    assert_eq!(
        kinds(&tokens),
        vec![TokenType::EqualEqual, TokenType::Equal, TokenType::Eof]
    );
}

#[test]
fn trailing_dot_is_not_part_of_a_number() {
    let tokens = scan("123.").unwrap();
    assert_eq!(
        kinds(&tokens),
        vec![TokenType::Number("123"), TokenType::Dot, TokenType::Eof]
    );
    assert_eq!(tokens[0].literal, "123");
    assert_eq!(tokens[0].range, Range::new(0, 3));
    assert_eq!(tokens[1].range, Range::new(3, 4));
    assert_eq!(tokens[0].literal.parse::<f64>().unwrap(), 123.0);
}

#[test]
fn number_takes_one_fraction() {
    let tokens = scan("3.25").unwrap();
    assert_eq!(kinds(&tokens), vec![TokenType::Number("3.25"), TokenType::Eof]);
    assert_eq!(tokens[0].range, Range::new(0, 4));
    if let TokenType::Number(digits) = tokens[0].token_type {
        assert_eq!(digits.parse::<f64>().unwrap(), 3.25);
    }
    let tokens = scan("1.2.3").unwrap();
    assert_eq!(
        kinds(&tokens),
        vec![
            TokenType::Number("1.2"),
            TokenType::Dot,
            TokenType::Number("3"),
            TokenType::Eof,
        ]
    );
    let tokens = scan("7.x").unwrap();
    assert_eq!(
        kinds(&tokens),
        vec![
            TokenType::Number("7"),
            TokenType::Dot,
            TokenType::Identifier("x"),
            TokenType::Eof,
        ]
    );
    let tokens = scan(".5").unwrap();
    assert_eq!(
        kinds(&tokens),
        vec![TokenType::Dot, TokenType::Number("5"), TokenType::Eof]
    );
}

#[test]
fn long_number_is_still_a_number() {
    let source = "123456789012345678901234567890.5";
    let tokens = scan(source).unwrap();
    assert_eq!(kinds(&tokens), vec![TokenType::Number(source), TokenType::Eof]);
}

#[test]
fn unterminated_string_is_one_diagnostic() {
    let errors = scan("\"abc").unwrap_err();
    assert_eq!(errors.len(), 1);
    assert_eq!(fault_of(&errors[0]), Fault::UnterminatedString);
    assert_eq!(place_of(&errors[0]), (0, 4));
    assert_eq!(source_of(&errors[0]), "\"abc");
}

#[test]
fn unterminated_string_after_tokens_hides_the_tokens() {
    let errors = scan("print \"abc\nmore").unwrap_err();
    assert_eq!(errors.len(), 1);
    assert_eq!(fault_of(&errors[0]), Fault::UnterminatedString);
    assert_eq!(place_of(&errors[0]), (6, 9));
}

#[test]
fn lone_quote_is_unterminated() {
    let errors = scan("\"").unwrap_err();
    assert_eq!(errors.len(), 1);
    assert_eq!(fault_of(&errors[0]), Fault::UnterminatedString);
    assert_eq!(place_of(&errors[0]), (0, 1));
}

#[test]
fn illegal_character_is_one_diagnostic() {
    let errors = scan("@").unwrap_err();
    assert_eq!(errors.len(), 1);
    assert_eq!(fault_of(&errors[0]), Fault::IllegalToken);
    assert_eq!(place_of(&errors[0]), (0, 1));
    assert_eq!(source_of(&errors[0]), "@");
}

#[test]
fn scan_goes_on_after_an_illegal_character() {
    let errors = scan("@1").unwrap_err();
    assert_eq!(errors.len(), 1);
    assert_eq!(fault_of(&errors[0]), Fault::IllegalToken);
    assert_eq!(place_of(&errors[0]), (0, 1));
    assert_eq!(source_of(&errors[0]), "@1");

    let errors = scan("@1#").unwrap_err();
    assert_eq!(errors.len(), 2);
    assert_eq!(place_of(&errors[0]), (0, 1));
    assert_eq!(place_of(&errors[1]), (2, 1));
}

#[test]
fn every_error_is_reported_in_order() {
    let source = "a @ b # \"open";
    let errors = scan(source).unwrap_err();
    assert_eq!(errors.len(), 3);
    assert_eq!(fault_of(&errors[0]), Fault::IllegalToken);
    assert_eq!(place_of(&errors[0]), (2, 1));
    assert_eq!(fault_of(&errors[1]), Fault::IllegalToken);
    assert_eq!(place_of(&errors[1]), (6, 1));
    assert_eq!(fault_of(&errors[2]), Fault::UnterminatedString);
    assert_eq!(place_of(&errors[2]), (8, 5));
    for error in &errors {
        assert_eq!(source_of(error), source);
    }
}

#[test]
fn illegal_character_of_several_bytes_has_one_span() {
    let errors = scan("\u{e9}").unwrap_err();
    assert_eq!(errors.len(), 1);
    assert_eq!(place_of(&errors[0]), (0, 2));

    let errors = scan("x \u{20ac}\u{1f600} y").unwrap_err();
    assert_eq!(errors.len(), 2);
    assert_eq!(place_of(&errors[0]), (2, 3));
    assert_eq!(place_of(&errors[1]), (5, 4));
}

#[test]
fn keyword_matching_is_exact() {
    let tokens = scan("while whilex").unwrap();
    assert_eq!(
        kinds(&tokens),
        vec![
            TokenType::While,
            TokenType::Identifier("whilex"),
            TokenType::Eof,
        ]
    );
    assert_eq!(tokens[0].range, Range::new(0, 5));
    assert_eq!(tokens[1].range, Range::new(6, 12));
    assert_eq!(tokens[1].literal, "whilex");
}

#[test]
fn scanning_twice_gives_the_same_tokens() {
    let source = "fun add(a, b) { return a + b; } // sum\n\"text\" 12.5 nil";
    let first = scan(source).unwrap();
    let second = scan(source).unwrap();
    assert_eq!(first.len(), second.len());
    for (one, other) in first.iter().zip(second.iter()) {
        assert_eq!(one.token_type, other.token_type);
        assert_eq!(one.literal, other.literal);
        assert_eq!(one.range, other.range);
    }
}

#[test]
fn scanning_twice_gives_the_same_diagnostics() {
    let source = "1 $ 2 \"never closed";
    let first = scan(source).unwrap_err();
    let second = scan(source).unwrap_err();
    assert_eq!(first.len(), 2);
    assert_eq!(first.len(), second.len());
    for (one, other) in first.iter().zip(second.iter()) {
        assert_eq!(fault_of(one), fault_of(other));
        assert_eq!(place_of(one), place_of(other));
        assert_eq!(source_of(one), source_of(other));
    }
}

#[test]
fn one_scanner_scans_again_to_the_same_result() {
    let source = "a = 1;";
    let mut scanner = Scanner::new(source);
    let first = scanner.scan_tokens().unwrap();
    let second = scanner.scan_tokens().unwrap();
    assert_eq!(first.len(), 5);
    assert_eq!(kinds(&first), kinds(&second));
    assert_eq!(second.last().unwrap().range, Range::new(6, 6));

    let mut scanner = Scanner::new("?");
    let first = scanner.scan_tokens().unwrap_err();
    let second = scanner.scan_tokens().unwrap_err();
    assert_eq!(first.len(), 1);
    assert_eq!(second.len(), 1);
    assert_eq!(place_of(&first[0]), place_of(&second[0]));
}

#[test]
fn number_literals_are_found_in_order() {
    let runs = number_literals("a = 1.5 + 20; // 7\n\"8\" 9. x1 @ 0.25");
    assert_eq!(
        runs,
        vec![
            Range::new(4, 7),
            Range::new(10, 12),
            Range::new(23, 24),
            Range::new(31, 35),
        ]
    );
    assert!(number_literals("").is_empty());
    assert!(number_literals("no number, not even in \"12\" // 3").is_empty());
    assert_eq!(number_literals("12"), vec![Range::new(0, 2)]);
}

#[test]
fn numbers_with_values_scan_as_ever() {
    let source = "a = 1.5 + 20;";
    let plain = scan(source).unwrap();
    for valued in [vec![], vec![true], vec![true, true], vec![true, true, false]] {
        let tokens = scan_valued(source, &valued).unwrap();
        assert_eq!(kinds(&tokens), kinds(&plain));
        for (one, other) in tokens.iter().zip(plain.iter()) {
            assert_eq!(one.literal, other.literal);
            assert_eq!(one.range, other.range);
        }
    }
}

#[test]
fn number_without_value_is_a_diagnostic() {
    let source = "a = 1.5 + 20;";
    let errors = scan_valued(source, &vec![false, true]).unwrap_err();
    assert_eq!(errors.len(), 1);
    assert_eq!(fault_of(&errors[0]), Fault::NumberConversion);
    assert_eq!(place_of(&errors[0]), (4, 3));
    assert_eq!(source_of(&errors[0]), source);

    let errors = scan_valued(source, &vec![true, false]).unwrap_err();
    assert_eq!(errors.len(), 1);
    assert_eq!(place_of(&errors[0]), (10, 2));

    let errors = scan_valued(source, &vec![false]).unwrap_err();
    assert_eq!(errors.len(), 1);
    assert_eq!(place_of(&errors[0]), (4, 3));

    let errors = scan_valued(source, &vec![false, false]).unwrap_err();
    assert_eq!(errors.len(), 2);
    assert_eq!(place_of(&errors[0]), (4, 3));
    assert_eq!(place_of(&errors[1]), (10, 2));
}

#[test]
fn diagnostics_of_every_kind_come_in_source_order() {
    let source = "1 @ 22 # 333 \"open";
    let runs = number_literals(source);
    assert_eq!(
        runs,
        vec![Range::new(0, 1), Range::new(4, 6), Range::new(9, 12)]
    );
    let errors = scan_valued(source, &vec![true, false, false]).unwrap_err();
    assert_eq!(errors.len(), 5);
    let found: Vec<(Fault, (usize, usize))> = errors
        .iter()
        .map(|error| (fault_of(error), place_of(error)))
        .collect();
    assert_eq!(
        found,
        vec![
            (Fault::IllegalToken, (2, 1)),
            (Fault::NumberConversion, (4, 2)),
            (Fault::IllegalToken, (7, 1)),
            (Fault::NumberConversion, (9, 3)),
            (Fault::UnterminatedString, (13, 5)),
        ]
    );
    for error in &errors {
        assert_eq!(source_of(error), source);
    }
}

#[test]
fn scanner_with_values_reports_numbers_without_value() {
    let mut scanner = Scanner::with_values("1 2 3", vec![true, false, true]);
    let errors = scanner.scan_tokens().unwrap_err();
    assert_eq!(errors.len(), 1);
    assert_eq!(fault_of(&errors[0]), Fault::NumberConversion);
    assert_eq!(place_of(&errors[0]), (2, 1));
    let again = scanner.scan_tokens().unwrap_err();
    assert_eq!(again.len(), 1);
    assert_eq!(place_of(&again[0]), (2, 1));
}

#[test]
fn characters_of_several_bytes_are_stepped_over_whole() {
    let source = "\"\u{e9}\u{20ac}\u{1f600}\" // \u{e9}\u{1f600}\n1.\u{e9}5 \u{1f600}";
    let errors = scan(source).unwrap_err();
    let found: Vec<(Fault, (usize, usize))> = errors
        .iter()
        .map(|error| (fault_of(error), place_of(error)))
        .collect();
    assert_eq!(
        found,
        vec![
            (Fault::IllegalToken, (24, 2)),
            (Fault::IllegalToken, (28, 4)),
        ]
    );
    assert_eq!(
        number_literals(source),
        vec![Range::new(22, 23), Range::new(26, 27)]
    );

    let tokens = scan("1.\u{e9}").unwrap_err();
    assert_eq!(tokens.len(), 1);
    assert_eq!(place_of(&tokens[0]), (2, 2));
    let tokens = scan("\"\u{e9}\" 1.5").unwrap();
    assert_eq!(
        kinds(&tokens),
        vec![
            TokenType::String("\u{e9}"),
            TokenType::Number("1.5"),
            TokenType::Eof,
        ]
    );
    assert_eq!(tokens[0].range, Range::new(0, 4));
    assert_eq!(tokens[1].range, Range::new(5, 8));
}
