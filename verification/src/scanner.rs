//! The scanner: one pass over the source, from left to right.

use crate::errors::error_views;
use crate::errors::ErrorView;
use crate::errors::Fault;
use crate::errors::ScannerError;
use crate::grammar::byte_is;
use crate::grammar::errors_from;
use crate::grammar::gathered;
use crate::grammar::gathered_at_start;
use crate::grammar::gathered_step;
use crate::grammar::has_value;
use crate::grammar::number_ranges;
use crate::grammar::number_ranges_from;
use crate::grammar::number_starts_on_digit;
use crate::grammar::run_end;
use crate::grammar::scan_with;
use crate::grammar::step_advances;
use crate::grammar::is_blank;
use crate::grammar::is_digit;
use crate::grammar::is_letter;
use crate::grammar::is_trailing;
use crate::grammar::is_word_byte;
use crate::grammar::operator;
use crate::grammar::run_end_found;
use crate::grammar::scan;
use crate::grammar::step;
use crate::grammar::token_at;
use crate::grammar::tokens_from;
use crate::grammar::BANG;
use crate::grammar::CARRIAGE_RETURN;
use crate::grammar::COMMA;
use crate::grammar::DOT;
use crate::grammar::EQUAL;
use crate::grammar::GREATER;
use crate::grammar::LEFT_BRACE;
use crate::grammar::LEFT_PAREN;
use crate::grammar::LESS;
use crate::grammar::MINUS;
use crate::grammar::NEWLINE;
use crate::grammar::PLUS;
use crate::grammar::QUOTE;
use crate::grammar::RIGHT_BRACE;
use crate::grammar::RIGHT_PAREN;
use crate::grammar::SEMICOLON;
use crate::grammar::SLASH;
use crate::grammar::SPACE;
use crate::grammar::STAR;
use crate::grammar::TAB;
use crate::grammar::UNDERSCORE;
use crate::grammar::Found;
use crate::grammar::Run;
use crate::grammar::Step;
use crate::text::boundary;
use crate::text::ascii_is_one_byte;
use crate::text::boundary_after_ascii;
use crate::text::character_ends_at_boundary;
use crate::text::boundary_at_start;
use crate::text::slice;
use crate::token::token_views;
use crate::token::Kind;
use crate::token::Range;
use crate::token::Token;
use crate::token::TokenType;
use crate::token::TokenView;
use vstd::prelude::*;
use vstd::slice::slice_index_get;
use vstd::string::StringSliceAdditionalSpecFns;
use vstd::utf8::encode_utf8_valid_utf8;
use vstd::utf8::valid_utf8;

verus! {

fn ascii_digit(b: u8) -> (yes: bool)
    ensures
        yes == is_digit(b),
{
    0x30 <= b && b <= 0x39
}

fn ascii_letter(b: u8) -> (yes: bool)
    ensures
        yes == is_letter(b),
{
    (0x41 <= b && b <= 0x5a) || (0x61 <= b && b <= 0x7a)
}

fn blank(b: u8) -> (yes: bool)
    ensures
        yes == is_blank(b),
{
    b == SPACE || b == TAB || b == CARRIAGE_RETURN || b == NEWLINE
}

fn trailing(b: u8) -> (yes: bool)
    ensures
        yes == is_trailing(b),
{
    0x80 <= b && b <= 0xbf
}

/// The values of what a scan returned.
pub open spec fn outcome(result: Result<Vec<Token>, Vec<ScannerError>>) -> Result<
    Seq<TokenView>,
    Seq<ErrorView>,
> {
    match result {
        Ok(tokens) => Ok(token_views(tokens@)),
        Err(errors) => Err(error_views(errors@)),
    }
}

/// The ends of a sequence of ranges, in order.
pub open spec fn range_views(ranges: Seq<Range>) -> Seq<(int, int)> {
    ranges.map_values(|range: Range| (range.start as int, range.end as int))
}

/// A scanner over one source. It holds a cursor into the source, what it
/// has found before the cursor, and what it was told of the values of the
/// number literals.
pub struct Scanner<'a> {
    source: &'a str,
    position: usize,
    tokens: Vec<Token<'a>>,
    errors: Vec<ScannerError>,
    numbers: Vec<Range>,
    valued: Vec<bool>,
}

impl<'a> Scanner<'a> {
    /// The bytes of the source.
    pub closed spec fn text(&self) -> Seq<u8> {
        self.source.spec_bytes()
    }

    /// The offset of the next byte to read.
    pub closed spec fn cursor(&self) -> int {
        self.position as int
    }

    /// Which number literals have a value, by their index in the source.
    /// A literal of which this says nothing has one.
    pub closed spec fn verdicts(&self) -> Seq<bool> {
        self.valued@
    }

    /// The cursor stands in the source.
    spec fn within(&self) -> bool {
        self.position <= self.text().len()
    }

    /// The scanner differs from `before` in its cursor at most.
    spec fn moved_from(&self, before: &Self) -> bool {
        &&& self.source == before.source
        &&& self.tokens == before.tokens
        &&& self.errors == before.errors
        &&& self.numbers == before.numbers
        &&& self.valued == before.valued
    }

    /// The scanner differs from `before` in what it has found at most.
    spec fn found_from(&self, before: &Self) -> bool {
        &&& self.source == before.source
        &&& self.position == before.position
        &&& self.valued == before.valued
    }

    /// The tokens, diagnostics and number literals held are those of the
    /// source before `upto`.
    spec fn holds_all_before(&self, upto: int) -> bool {
        gathered(
            token_views(self.tokens@),
            error_views(self.errors@),
            range_views(self.numbers@),
            self.text(),
            self.valued@,
            upto,
        )
    }

    /// Whether the next number literal has a value.
    spec fn next_has_value(&self) -> bool {
        has_value(self.valued@, self.numbers@.len() as int)
    }

    /// The cursor stands between two characters of the source, and what
    /// the scanner holds is what the source holds before the cursor.
    pub closed spec fn wf(&self) -> bool {
        &&& self.within()
        &&& boundary(self.text(), self.cursor())
        &&& self.holds_all_before(self.cursor())
    }

    /// A scanner at the start of `source`, for which every number literal
    /// has a value.
    pub fn new(source: &'a str) -> (scanner: Self)
        ensures
            scanner.wf(),
            scanner.text() == source.spec_bytes(),
            scanner.cursor() == 0,
            scanner.verdicts() == Seq::<bool>::empty(),
    {
        Scanner::with_values(source, Vec::new())
    }

    /// A scanner at the start of `source`, for which the number literals
    /// have a value as `valued` says: its entry `k` speaks of the literal
    /// of index `k`, counted from zero in source order.
    pub fn with_values(source: &'a str, valued: Vec<bool>) -> (scanner: Self)
        ensures
            scanner.wf(),
            scanner.text() == source.spec_bytes(),
            scanner.cursor() == 0,
            scanner.verdicts() == valued@,
    {
        proof {
            encode_utf8_valid_utf8(source@);
            boundary_at_start(source.spec_bytes());
            gathered_at_start(source.spec_bytes(), valued@);
            assert(token_views(Seq::<Token>::empty()) =~= Seq::<TokenView>::empty());
            assert(error_views(Seq::<ScannerError>::empty()) =~= Seq::<ErrorView>::empty());
            assert(range_views(Seq::<Range>::empty()) =~= Seq::<(int, int)>::empty());
        }
        Self { source, position: 0, tokens: vec![], errors: vec![], numbers: vec![], valued }
    }

    /// Scans the source to its end and returns every token in it, the
    /// end-of-input token last, or, where anything is wrong with the
    /// source, every diagnostic, in source order, and no token.
    pub fn scan_tokens(&mut self) -> (result: Result<Vec<Token<'a>>, Vec<ScannerError>>)
        requires
            old(self).wf(),
        ensures
            final(self).wf(),
            final(self).text() == old(self).text(),
            final(self).verdicts() == old(self).verdicts(),
            final(self).cursor() == old(self).text().len(),
            outcome(result) == scan_with(old(self).text(), old(self).verdicts()),
    {
        loop
            invariant
                self.wf(),
                self.source == old(self).source,
                self.valued == old(self).valued,
            ensures
                self.position == self.text().len(),
            decreases self.text().len() - self.position,
        {
            let start = self.position;
            let ch = match self.advance() {
                Some(ch) => ch,
                None => break,
            };
            self.scan_token(ch, start);
        }
        let end = self.position;
        proof {
            let s = self.text();
            let k = self.numbers@.len() as int;
            assert(error_views(self.errors@) + errors_from(s, end as int, self.valued@, k)
                =~= error_views(self.errors@));
            assert(tokens_from(s, end as int, self.valued@, k) == seq![
                token_at(s, Kind::Eof, end as int, end as int),
            ]);
        }
        if !self.errors.is_empty() {
            Err(self.errors.clone())
        } else {
            let mut tokens = self.tokens.clone();
            let eof = Token::new(TokenType::Eof, slice(self.source, end, end), Range::new(end, end));
            tokens.push(eof);
            assert(token_views(tokens@) =~= token_views(self.tokens@) + seq![eof@]);
            Ok(tokens)
        }
    }

    /// One dispatch cycle: reads the token, the blank space, the comment or
    /// the illegal character whose first byte, `ch`, was read at `start`.
    fn scan_token(&mut self, ch: u8, start: usize)
        requires
            old(self).entered(start),
            ch == old(self).text()[start as int],
        ensures
            final(self).wf(),
            final(self).source == old(self).source,
            final(self).valued == old(self).valued,
            final(self).cursor() == step(
                old(self).text(),
                start as int,
                old(self).next_has_value(),
            ).end,
            final(self).position > start,
    {
        proof {
            encode_utf8_valid_utf8(self.source@);
            if ch < 0x80 {
                ascii_is_one_byte(self.text(), start as int);
            }
        }
        if ch == LEFT_PAREN {
            self.add_token(TokenType::LeftParen, start);
        } else if ch == RIGHT_PAREN {
            self.add_token(TokenType::RightParen, start);
        } else if ch == LEFT_BRACE {
            self.add_token(TokenType::LeftBrace, start);
        } else if ch == RIGHT_BRACE {
            self.add_token(TokenType::RightBrace, start);
        } else if ch == COMMA {
            self.add_token(TokenType::Comma, start);
        } else if ch == DOT {
            self.add_token(TokenType::Dot, start);
        } else if ch == MINUS {
            self.add_token(TokenType::Minus, start);
        } else if ch == PLUS {
            self.add_token(TokenType::Plus, start);
        } else if ch == SEMICOLON {
            self.add_token(TokenType::Semicolon, start);
        } else if ch == STAR {
            self.add_token(TokenType::Star, start);
        } else if ch == BANG {
            self.scan_operator(TokenType::Bang, TokenType::BangEqual, start);
        } else if ch == EQUAL {
            self.scan_operator(TokenType::Equal, TokenType::EqualEqual, start);
        } else if ch == LESS {
            self.scan_operator(TokenType::Less, TokenType::LessEqual, start);
        } else if ch == GREATER {
            self.scan_operator(TokenType::Greater, TokenType::GreaterEqual, start);
        } else if ch == SLASH {
            if self.peek_is(SLASH) {
                self.skip_comment(start);
            } else {
                self.add_token(TokenType::Slash, start);
            }
        } else if ch == QUOTE {
            self.scan_string(start);
        } else if blank(ch) {
            proof {
                gathered_step(
                    token_views(self.tokens@),
                    error_views(self.errors@),
                    range_views(self.numbers@),
                    self.text(),
                    self.valued@,
                    start as int,
                );
            }
        } else if ascii_digit(ch) {
            self.scan_number(start);
        } else if ascii_letter(ch) || ch == UNDERSCORE {
            self.scan_identifier(start);
        } else {
            proof {
                character_ends_at_boundary(self.text(), start as int);
            }
            self.add_error(Fault::IllegalToken, start);
        }
    }

    /// Reads an operator of one byte, or of two where an equal sign
    /// follows the byte read at `start`.
    fn scan_operator(&mut self, single: TokenType<'a>, double: TokenType<'a>, start: usize)
        requires
            old(self).begun(start),
            step(old(self).text(), start as int, old(self).next_has_value()) == operator(
                old(self).text(),
                start as int,
                single@,
                double@,
            ),
            old(self).text()[start as int] < 0x80,
        ensures
            final(self).wf(),
            final(self).source == old(self).source,
            final(self).valued == old(self).valued,
            final(self).cursor() == step(
                old(self).text(),
                start as int,
                old(self).next_has_value(),
            ).end,
            final(self).position > start,
    {
        if self.peek_is(EQUAL) {
            proof {
                encode_utf8_valid_utf8(self.source@);
                ascii_is_one_byte(self.text(), self.cursor());
            }
            self.advance();
            self.add_token(double, start);
        } else {
            self.add_token(single, start);
        }
    }

    /// Skips a comment up to the end of its line. The first of its two
    /// slashes was read at `start`.
    fn skip_comment(&mut self, start: usize)
        requires
            old(self).begun(start),
            old(self).text()[start as int] == SLASH,
            byte_is(old(self).text(), start + 1, SLASH),
        ensures
            final(self).wf(),
            final(self).source == old(self).source,
            final(self).valued == old(self).valued,
            final(self).cursor() == step(
                old(self).text(),
                start as int,
                old(self).next_has_value(),
            ).end,
            final(self).position > start,
    {
        while !self.is_at_end() && !self.peek_is(NEWLINE)
            invariant
                self.moved_from(old(self)),
                start < self.position <= self.text().len(),
                boundary(self.text(), self.cursor()),
                forall|i: int|
                    start < i < self.position ==> Run::Comment.admits(#[trigger] self.text()[i]),
            decreases self.text().len() - self.position,
        {
            self.advance();
        }
        proof {
            run_end_found(self.text(), start + 1, self.cursor(), Run::Comment);
            gathered_step(
                token_views(self.tokens@),
                error_views(self.errors@),
                range_views(self.numbers@),
                self.text(),
                self.valued@,
                start as int,
            );
        }
    }

    fn is_at_end(&self) -> (at_end: bool)
        ensures
            at_end == (self.position >= self.text().len()),
    {
        self.position >= self.source.as_bytes().len()
    }

    /// The first byte of the character at the cursor, or zero at the end
    /// of the source.
    fn peek(&self) -> (b: u8)
        ensures
            b == if self.position < self.text().len() {
                self.text()[self.cursor()]
            } else {
                0u8
            },
    {
        let bytes = self.source.as_bytes();
        if self.position < bytes.len() {
            *slice_index_get(bytes, self.position)
        } else {
            0
        }
    }

    /// The first byte of the character after the one at the cursor, or
    /// zero where there is none.
    fn peek_peek(&self) -> (b: u8)
        requires
            self.within(),
            boundary(self.text(), self.cursor()),
        ensures
            ({
                let next = run_end(self.text(), self.cursor() + 1, Run::Trailing);
                b == if next < self.text().len() {
                    self.text()[next]
                } else {
                    0u8
                }
            }),
    {
        let bytes = self.source.as_bytes();
        if self.position >= bytes.len() {
            return 0;
        }
        let mut next = self.position + 1;
        while next < bytes.len() && trailing(*slice_index_get(bytes, next))
            invariant
                bytes@ == self.text(),
                self.position < next <= bytes.len(),
                forall|i: int| self.position < i < next ==> is_trailing(#[trigger] bytes@[i]),
            decreases bytes.len() - next,
        {
            next = next + 1;
        }
        proof {
            run_end_found(self.text(), self.cursor() + 1, next as int, Run::Trailing);
        }
        if next < bytes.len() {
            *slice_index_get(bytes, next)
        } else {
            0
        }
    }

    fn peek_is(&self, expected: u8) -> (yes: bool)
        ensures
            yes == byte_is(self.text(), self.cursor(), expected),
    {
        let bytes = self.source.as_bytes();
        self.position < bytes.len() && *slice_index_get(bytes, self.position) == expected
    }

    fn peek_is_identifier_char(&self) -> (yes: bool)
        ensures
            yes == (self.position < self.text().len() && is_word_byte(self.text()[self.cursor()])),
    {
        let b = self.peek();
        ascii_letter(b) || ascii_digit(b) || b == UNDERSCORE
    }

    /// Reads the character at the cursor and steps over the whole of it.
    /// What it returns is the first byte of the character.
    fn advance(&mut self) -> (read: Option<u8>)
        requires
            old(self).within(),
            boundary(old(self).text(), old(self).cursor()),
        ensures
            final(self).moved_from(old(self)),
            old(self).position < old(self).text().len() ==> {
                &&& read == Some(old(self).text()[old(self).cursor()])
                &&& final(self).cursor() == run_end(
                    old(self).text(),
                    old(self).cursor() + 1,
                    Run::Trailing,
                )
                &&& old(self).position < final(self).position <= old(self).text().len()
                &&& boundary(final(self).text(), final(self).cursor())
                &&& forall|i: int|
                    old(self).position < i < final(self).position ==> is_trailing(
                        #[trigger] old(self).text()[i],
                    )
            },
            old(self).position >= old(self).text().len() ==> {
                &&& read.is_none()
                &&& final(self).position == old(self).position
            },
    {
        let bytes = self.source.as_bytes();
        if self.position < bytes.len() {
            let b = *slice_index_get(bytes, self.position);
            self.position = self.position + 1;
            while self.position < bytes.len() && trailing(*slice_index_get(bytes, self.position))
                invariant
                    bytes@ == self.text(),
                    self.moved_from(old(self)),
                    old(self).position < self.position <= bytes.len(),
                    forall|i: int|
                        old(self).position < i < self.position ==> is_trailing(
                            #[trigger] bytes@[i],
                        ),
                decreases bytes.len() - self.position,
            {
                self.position = self.position + 1;
            }
            proof {
                run_end_found(
                    self.text(),
                    old(self).cursor() + 1,
                    self.cursor(),
                    Run::Trailing,
                );
            }
            Some(b)
        } else {
            None
        }
    }

    /// A dispatch cycle that started at `start` has read the character
    /// there and nothing more.
    spec fn entered(&self, start: usize) -> bool {
        &&& start < self.text().len()
        &&& self.position <= self.text().len()
        &&& self.cursor() == run_end(self.text(), start + 1, Run::Trailing)
        &&& self.opened(start)
    }

    /// A dispatch cycle that started at `start` has read the byte there,
    /// which is a whole character, and nothing more.
    spec fn begun(&self, start: usize) -> bool {
        &&& self.entered(start)
        &&& self.position == start + 1
    }

    /// What the scanner holds is what the source holds before `start`,
    /// where a character starts.
    spec fn opened(&self, start: usize) -> bool {
        &&& boundary(self.text(), start as int)
        &&& self.holds_all_before(start as int)
    }

    /// Whether the next number literal has a value.
    fn has_value(&self) -> (yes: bool)
        ensures
            yes == self.next_has_value(),
    {
        let k = self.numbers.len();
        k >= self.valued.len() || self.valued[k]
    }

    /// Ends the dispatch cycle that started at `start` with a token of the
    /// text from there up to the cursor.
    fn add_token(&mut self, token_type: TokenType<'a>, start: usize)
        requires
            old(self).opened(start),
            start < old(self).position <= old(self).text().len(),
            old(self).text()[old(self).cursor() - 1] < 0x80,
            step(old(self).text(), start as int, old(self).next_has_value()) == (Step {
                found: Found::Token(token_type@),
                end: old(self).cursor(),
            }),
        ensures
            final(self).wf(),
            final(self).found_from(old(self)),
    {
        proof {
            encode_utf8_valid_utf8(self.source@);
            boundary_after_ascii(self.text(), self.cursor() - 1);
            number_starts_on_digit(self.text(), start as int, self.next_has_value());
            gathered_step(
                token_views(self.tokens@),
                error_views(self.errors@),
                range_views(self.numbers@),
                self.text(),
                self.valued@,
                start as int,
            );
        }
        let range = Range::new(start, self.position);
        let token = Token::new(token_type, slice(self.source, start, self.position), range);
        if matches!(token_type, TokenType::Number(_)) {
            self.numbers.push(range);
            assert(range_views(self.numbers@) =~= range_views(old(self).numbers@).push(
                (start as int, self.cursor()),
            ));
        }
        self.tokens.push(token);
        assert(token_views(self.tokens@) =~= token_views(old(self).tokens@).push(token@));
    }

    /// Ends the dispatch cycle that started at `start` with a diagnostic
    /// for the text from there up to the cursor.
    fn add_error(&mut self, fault: Fault, start: usize)
        requires
            old(self).opened(start),
            start < old(self).position <= old(self).text().len(),
            boundary(old(self).text(), old(self).cursor()),
            step(old(self).text(), start as int, old(self).next_has_value()) == (Step {
                found: Found::Error(fault),
                end: old(self).cursor(),
            }),
        ensures
            final(self).wf(),
            final(self).found_from(old(self)),
    {
        proof {
            number_starts_on_digit(self.text(), start as int, self.next_has_value());
            gathered_step(
                token_views(self.tokens@),
                error_views(self.errors@),
                range_views(self.numbers@),
                self.text(),
                self.valued@,
                start as int,
            );
        }
        let range = Range::new(start, self.position);
        let error = ScannerError::new(fault, self.source.to_owned(), range.source_span());
        if matches!(fault, Fault::NumberConversion) {
            self.numbers.push(range);
            assert(range_views(self.numbers@) =~= range_views(old(self).numbers@).push(
                (start as int, self.cursor()),
            ));
        }
        self.errors.push(error);
        assert(error_views(self.errors@) =~= error_views(old(self).errors@).push(error@));
    }

    /// Reads the rest of an identifier or keyword whose first byte stands
    /// at `start`.
    fn scan_identifier(&mut self, start: usize)
        requires
            old(self).begun(start),
            is_letter(old(self).text()[start as int]) || old(self).text()[start as int]
                == UNDERSCORE,
        ensures
            final(self).wf(),
            final(self).source == old(self).source,
            final(self).valued == old(self).valued,
            final(self).cursor() == step(
                old(self).text(),
                start as int,
                old(self).next_has_value(),
            ).end,
            final(self).position > start,
    {
        proof {
            encode_utf8_valid_utf8(self.source@);
            boundary_after_ascii(self.text(), start as int);
        }
        while self.peek_is_identifier_char()
            invariant
                self.moved_from(old(self)),
                valid_utf8(self.text()),
                start < self.position <= self.text().len(),
                boundary(self.text(), self.cursor()),
                forall|i: int|
                    start < i < self.position ==> Run::Word.admits(#[trigger] self.text()[i]),
            decreases self.text().len() - self.position,
        {
            proof {
                ascii_is_one_byte(self.text(), self.cursor());
            }
            self.advance();
        }
        proof {
            run_end_found(self.text(), start + 1, self.cursor(), Run::Word);
        }
        let kind = TokenType::get_token_type(slice(self.source, start, self.position));
        self.add_token(kind, start);
    }

    /// Reads the rest of a string literal whose opening quote stands at
    /// `start`.
    fn scan_string(&mut self, start: usize)
        requires
            old(self).begun(start),
            old(self).text()[start as int] == QUOTE,
        ensures
            final(self).wf(),
            final(self).source == old(self).source,
            final(self).valued == old(self).valued,
            final(self).cursor() == step(
                old(self).text(),
                start as int,
                old(self).next_has_value(),
            ).end,
            final(self).position > start,
    {
        proof {
            encode_utf8_valid_utf8(self.source@);
            boundary_after_ascii(self.text(), start as int);
        }
        while !self.is_at_end() && !self.peek_is(QUOTE)
            invariant
                self.moved_from(old(self)),
                valid_utf8(self.text()),
                start < self.position <= self.text().len(),
                boundary(self.text(), self.cursor()),
                forall|i: int|
                    start < i < self.position ==> Run::Text.admits(#[trigger] self.text()[i]),
            decreases self.text().len() - self.position,
        {
            self.advance();
        }
        proof {
            run_end_found(self.text(), start + 1, self.cursor(), Run::Text);
        }
        if self.is_at_end() {
            self.add_error(Fault::UnterminatedString, start);
        } else {
            proof {
                ascii_is_one_byte(self.text(), self.cursor());
            }
            self.advance();
            let text = slice(self.source, start + 1, self.position - 1);
            self.add_token(TokenType::String(text), start);
        }
    }

    /// Reads the rest of a number literal whose first digit stands at
    /// `start`. Where the literal has a value it is a token, and otherwise
    /// a diagnostic.
    fn scan_number(&mut self, start: usize)
        requires
            old(self).begun(start),
            is_digit(old(self).text()[start as int]),
        ensures
            final(self).wf(),
            final(self).source == old(self).source,
            final(self).valued == old(self).valued,
            final(self).cursor() == step(
                old(self).text(),
                start as int,
                old(self).next_has_value(),
            ).end,
            final(self).position > start,
    {
        proof {
            encode_utf8_valid_utf8(self.source@);
            boundary_after_ascii(self.text(), start as int);
        }
        while ascii_digit(self.peek())
            invariant
                self.moved_from(old(self)),
                valid_utf8(self.text()),
                start < self.position <= self.text().len(),
                boundary(self.text(), self.cursor()),
                forall|i: int|
                    start <= i < self.position ==> Run::Digits.admits(#[trigger] self.text()[i]),
            decreases self.text().len() - self.position,
        {
            proof {
                ascii_is_one_byte(self.text(), self.cursor());
            }
            self.advance();
        }
        let ghost whole = self.cursor();
        proof {
            run_end_found(self.text(), start as int, whole, Run::Digits);
            if self.position < self.text().len() && self.text()[whole] < 0x80 {
                ascii_is_one_byte(self.text(), whole);
            }
        }
        if self.peek_is(DOT) && ascii_digit(self.peek_peek()) {
            self.advance();
            while ascii_digit(self.peek())
                invariant
                    self.moved_from(old(self)),
                    valid_utf8(self.text()),
                    whole < self.position <= self.text().len(),
                    whole + 1 < self.text().len(),
                    is_digit(self.text()[whole + 1]),
                    boundary(self.text(), self.cursor()),
                    forall|i: int|
                        whole < i < self.position ==> Run::Digits.admits(
                            #[trigger] self.text()[i],
                        ),
                decreases self.text().len() - self.position,
            {
                proof {
                    ascii_is_one_byte(self.text(), self.cursor());
                }
                self.advance();
            }
            proof {
                run_end_found(self.text(), whole + 1, self.cursor(), Run::Digits);
            }
        }
        proof {
            boundary_after_ascii(self.text(), self.cursor() - 1);
        }
        if self.has_value() {
            let text = slice(self.source, start, self.position);
            self.add_token(TokenType::Number(text), start);
        } else {
            self.add_error(Fault::NumberConversion, start);
        }
    }
}

/// Where the number literals of `source` stand, in source order.
pub fn number_literals(source: &str) -> (runs: Vec<Range>)
    ensures
        range_views(runs@) == number_ranges(source.spec_bytes()),
{
    let mut scanner = Scanner::new(source);
    let _ = scanner.scan_tokens();
    proof {
        let s = scanner.text();
        assert(range_views(scanner.numbers@) + number_ranges_from(s, s.len() as int)
            =~= range_views(scanner.numbers@));
    }
    scanner.numbers
}

/// Scans `source`, given which of its number literals have a value:
/// `valued[k]` says so of the literal of index `k`, counted from zero in
/// source order as [`number_literals`] gives them, and a literal of which
/// `valued` says nothing has one. The result is every token, the
/// end-of-input token last, or, where anything is wrong with the source,
/// every diagnostic in source order, those for number literals without a
/// value among them, and no token.
pub fn scan_valued<'a>(source: &'a str, valued: &Vec<bool>) -> (result: Result<
    Vec<Token<'a>>,
    Vec<ScannerError>,
>)
    ensures
        outcome(result) == scan_with(source.spec_bytes(), valued@),
{
    let mut scanner = Scanner::with_values(source, valued.clone());
    scanner.scan_tokens()
}

} // verus!
