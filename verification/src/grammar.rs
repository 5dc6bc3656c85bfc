//! The lexical grammar, as mathematics over the bytes of the source.
//!
//! Every function here is a specification: it says which tokens and which
//! diagnostics a source holds, and the scanner is proved to produce them.

use crate::errors::ErrorView;
use crate::errors::Fault;
use crate::token::word_kind;
use crate::token::Kind;
use crate::token::TokenView;
use vstd::prelude::*;

verus! {

pub const TAB: u8 = 0x09;

pub const NEWLINE: u8 = 0x0a;

pub const CARRIAGE_RETURN: u8 = 0x0d;

pub const SPACE: u8 = 0x20;

pub const BANG: u8 = 0x21;

pub const QUOTE: u8 = 0x22;

pub const LEFT_PAREN: u8 = 0x28;

pub const RIGHT_PAREN: u8 = 0x29;

pub const STAR: u8 = 0x2a;

pub const PLUS: u8 = 0x2b;

pub const COMMA: u8 = 0x2c;

pub const MINUS: u8 = 0x2d;

pub const DOT: u8 = 0x2e;

pub const SLASH: u8 = 0x2f;

pub const SEMICOLON: u8 = 0x3b;

pub const LESS: u8 = 0x3c;

pub const EQUAL: u8 = 0x3d;

pub const GREATER: u8 = 0x3e;

pub const UNDERSCORE: u8 = 0x5f;

pub const LEFT_BRACE: u8 = 0x7b;

pub const RIGHT_BRACE: u8 = 0x7d;

/// An ASCII decimal digit.
pub open spec fn is_digit(b: u8) -> bool {
    0x30 <= b <= 0x39
}

/// An ASCII letter.
pub open spec fn is_letter(b: u8) -> bool {
    0x41 <= b <= 0x5a || 0x61 <= b <= 0x7a
}

/// A byte that may stand inside an identifier.
pub open spec fn is_word_byte(b: u8) -> bool {
    is_letter(b) || is_digit(b) || b == UNDERSCORE
}

/// Space, tab, carriage return or newline.
pub open spec fn is_blank(b: u8) -> bool {
    b == SPACE || b == TAB || b == CARRIAGE_RETURN || b == NEWLINE
}

/// A byte that continues a character begun by an earlier byte.
pub open spec fn is_trailing(b: u8) -> bool {
    0x80 <= b <= 0xbf
}

/// The classes of bytes that a sub-scan consumes greedily.
pub ghost enum Run {
    /// Decimal digits.
    Digits,
    /// Letters, digits and underscores.
    Word,
    /// Everything up to the end of the line.
    Comment,
    /// Everything up to the next double quote.
    Text,
    /// The bytes after the first of a character of several bytes.
    Trailing,
}

impl Run {
    /// Whether a run of this class goes on over `b`.
    pub open spec fn admits(self, b: u8) -> bool {
        match self {
            Run::Digits => is_digit(b),
            Run::Word => is_word_byte(b),
            Run::Comment => b != NEWLINE,
            Run::Text => b != QUOTE,
            Run::Trailing => is_trailing(b),
        }
    }
}

/// Where the longest run of `run` that starts at `from` ends: the first
/// offset at or after `from` whose byte the run does not admit, or the
/// length of the source.
pub open spec fn run_end(s: Seq<u8>, from: int, run: Run) -> int
    decreases s.len() - from,
{
    if 0 <= from < s.len() && run.admits(s[from]) {
        run_end(s, from + 1, run)
    } else {
        from
    }
}

/// Whether the byte at `at` exists and is `b`.
pub open spec fn byte_is(s: Seq<u8>, at: int, b: u8) -> bool {
    0 <= at < s.len() && s[at] == b
}

/// Where the number literal that starts at `at` ends: after its digits,
/// and after a dot and further digits where a digit follows the dot.
pub open spec fn number_end(s: Seq<u8>, at: int) -> int {
    let whole = run_end(s, at, Run::Digits);
    if byte_is(s, whole, DOT) && whole + 1 < s.len() && is_digit(s[whole + 1]) {
        run_end(s, whole + 1, Run::Digits)
    } else {
        whole
    }
}

/// What one dispatch cycle finds.
pub ghost enum Found {
    /// A token of the given kind.
    Token(Kind),
    /// Blank space or a comment.
    Nothing,
    /// Text that is no token, and what is wrong with it.
    Error(Fault),
}

/// One dispatch cycle: what was found, and where the next cycle starts.
pub ghost struct Step {
    pub found: Found,
    pub end: int,
}

/// The operator at `at`: `double` where an equal sign follows, else `single`.
pub open spec fn operator(s: Seq<u8>, at: int, single: Kind, double: Kind) -> Step {
    if byte_is(s, at + 1, EQUAL) {
        Step { found: Found::Token(double), end: at + 2 }
    } else {
        Step { found: Found::Token(single), end: at + 1 }
    }
}

/// The dispatch cycle that starts at offset `at`, for `0 <= at < s.len()`.
/// Where a number literal starts there, `valued` says whether it has a
/// value; nothing else depends on it.
pub open spec fn step(s: Seq<u8>, at: int, valued: bool) -> Step {
    let b = s[at];
    let one = at + 1;
    if b == LEFT_PAREN {
        Step { found: Found::Token(Kind::LeftParen), end: one }
    } else if b == RIGHT_PAREN {
        Step { found: Found::Token(Kind::RightParen), end: one }
    } else if b == LEFT_BRACE {
        Step { found: Found::Token(Kind::LeftBrace), end: one }
    } else if b == RIGHT_BRACE {
        Step { found: Found::Token(Kind::RightBrace), end: one }
    } else if b == COMMA {
        Step { found: Found::Token(Kind::Comma), end: one }
    } else if b == DOT {
        Step { found: Found::Token(Kind::Dot), end: one }
    } else if b == MINUS {
        Step { found: Found::Token(Kind::Minus), end: one }
    } else if b == PLUS {
        Step { found: Found::Token(Kind::Plus), end: one }
    } else if b == SEMICOLON {
        Step { found: Found::Token(Kind::Semicolon), end: one }
    } else if b == STAR {
        Step { found: Found::Token(Kind::Star), end: one }
    } else if b == BANG {
        operator(s, at, Kind::Bang, Kind::BangEqual)
    } else if b == EQUAL {
        operator(s, at, Kind::Equal, Kind::EqualEqual)
    } else if b == LESS {
        operator(s, at, Kind::Less, Kind::LessEqual)
    } else if b == GREATER {
        operator(s, at, Kind::Greater, Kind::GreaterEqual)
    } else if b == SLASH {
        if byte_is(s, one, SLASH) {
            Step { found: Found::Nothing, end: run_end(s, one, Run::Comment) }
        } else {
            Step { found: Found::Token(Kind::Slash), end: one }
        }
    } else if b == QUOTE {
        let close = run_end(s, one, Run::Text);
        if close < s.len() {
            Step { found: Found::Token(Kind::String(s.subrange(one, close))), end: close + 1 }
        } else {
            Step { found: Found::Error(Fault::UnterminatedString), end: close }
        }
    } else if is_blank(b) {
        Step { found: Found::Nothing, end: one }
    } else if is_digit(b) {
        let end = number_end(s, at);
        if valued {
            Step { found: Found::Token(Kind::Number(s.subrange(at, end))), end }
        } else {
            Step { found: Found::Error(Fault::NumberConversion), end }
        }
    } else if is_letter(b) || b == UNDERSCORE {
        let end = run_end(s, one, Run::Word);
        Step { found: Found::Token(word_kind(s.subrange(at, end))), end }
    } else {
        Step { found: Found::Error(Fault::IllegalToken), end: run_end(s, one, Run::Trailing) }
    }
}

/// A run ends at or after its start, within the source, on a byte that the
/// run does not admit; every byte before that it admits.
pub proof fn run_end_is_first_stop(s: Seq<u8>, from: int, run: Run)
    requires
        0 <= from <= s.len(),
    ensures
        from <= run_end(s, from, run) <= s.len(),
        run_end(s, from, run) < s.len() ==> !run.admits(s[run_end(s, from, run)]),
        forall|i: int| from <= i < run_end(s, from, run) ==> run.admits(#[trigger] s[i]),
    decreases s.len() - from,
{
    if from < s.len() && run.admits(s[from]) {
        run_end_is_first_stop(s, from + 1, run);
    }
}

/// A run that is entered anywhere inside it ends where the whole run ends.
pub proof fn run_end_from_inside(s: Seq<u8>, from: int, mid: int, run: Run)
    requires
        0 <= from <= mid <= s.len(),
        forall|i: int| from <= i < mid ==> run.admits(#[trigger] s[i]),
    ensures
        run_end(s, from, run) == run_end(s, mid, run),
    decreases mid - from,
{
    if from < mid {
        assert(run.admits(s[from]));
        run_end_from_inside(s, from + 1, mid, run);
    }
}

/// A number literal ends after its first digit or later, within the source.
pub proof fn number_end_bounds(s: Seq<u8>, at: int)
    requires
        0 <= at < s.len(),
        is_digit(s[at]),
    ensures
        at < number_end(s, at) <= s.len(),
{
    run_end_is_first_stop(s, at, Run::Digits);
    let whole = run_end(s, at, Run::Digits);
    assert(run_end(s, at, Run::Digits) == run_end(s, at + 1, Run::Digits));
    run_end_is_first_stop(s, at + 1, Run::Digits);
    if whole + 1 <= s.len() {
        run_end_is_first_stop(s, whole + 1, Run::Digits);
    }
}

/// Every dispatch cycle consumes at least one byte and stays in the source.
pub proof fn step_advances(s: Seq<u8>, at: int, valued: bool)
    requires
        0 <= at < s.len(),
    ensures
        at < step(s, at, valued).end <= s.len(),
        step(s, at, valued).end == step(s, at, true).end,
{
    let b = s[at];
    run_end_is_first_stop(s, at + 1, Run::Comment);
    run_end_is_first_stop(s, at + 1, Run::Text);
    run_end_is_first_stop(s, at + 1, Run::Word);
    run_end_is_first_stop(s, at + 1, Run::Trailing);
    if is_digit(b) {
        number_end_bounds(s, at);
    }
}

/// A number literal is what a cycle finds exactly where it starts on a
/// digit: a number token where the literal has a value, and a diagnostic
/// where it has none.
pub proof fn number_starts_on_digit(s: Seq<u8>, at: int, valued: bool)
    requires
        0 <= at < s.len(),
    ensures
        is_digit(s[at]) <==> (step(s, at, valued).found matches Found::Token(kind) && kind is Number)
            || step(s, at, valued).found == Found::Error(Fault::NumberConversion),
{
}

/// A run that admits every byte from `from` up to `stop`, and stops there,
/// ends at `stop`.
pub proof fn run_end_found(s: Seq<u8>, from: int, stop: int, run: Run)
    requires
        0 <= from <= stop <= s.len(),
        forall|i: int| from <= i < stop ==> run.admits(#[trigger] s[i]),
        stop < s.len() ==> !run.admits(s[stop]),
    ensures
        run_end(s, from, run) == stop,
{
    run_end_from_inside(s, from, stop, run);
}

/// The token of the given kind that was read from `start` up to `end`.
pub open spec fn token_at(s: Seq<u8>, kind: Kind, start: int, end: int) -> TokenView {
    TokenView { kind, lexeme: s.subrange(start, end), start, end }
}

/// The diagnostic for the text from `start` up to `end`.
pub open spec fn error_at(s: Seq<u8>, fault: Fault, start: int, end: int) -> ErrorView {
    ErrorView { fault, src: s, offset: start, len: end - start }
}

/// Whether the number literal of index `k`, counted from zero in source
/// order, has a value: what `valued` says of it, and yes where `valued`
/// says nothing of it.
pub open spec fn has_value(valued: Seq<bool>, k: int) -> bool {
    !(0 <= k < valued.len()) || valued[k]
}

/// The index of the next number literal after a cycle at `at`, where the
/// next one before that cycle had index `k`.
pub open spec fn next_number(s: Seq<u8>, at: int, k: int) -> int {
    if is_digit(s[at]) {
        k + 1
    } else {
        k
    }
}

/// The tokens that the source holds from offset `at` on, in order, with
/// the end-of-input token last. The first number literal from `at` on has
/// index `k`, and `valued` says which number literals have a value; one
/// that has none is no token.
pub open spec fn tokens_from(s: Seq<u8>, at: int, valued: Seq<bool>, k: int) -> Seq<TokenView>
    decreases s.len() - at,
{
    if 0 <= at < s.len() {
        proof {
            step_advances(s, at, has_value(valued, k));
        }
        let next = step(s, at, has_value(valued, k));
        let rest = tokens_from(s, next.end, valued, next_number(s, at, k));
        match next.found {
            Found::Token(kind) => seq![token_at(s, kind, at, next.end)] + rest,
            _ => rest,
        }
    } else {
        seq![token_at(s, Kind::Eof, s.len() as int, s.len() as int)]
    }
}

/// The diagnostics that the source gives rise to from offset `at` on, in
/// order: for each illegal character, each unterminated string, and each
/// number literal that has no value according to `valued`. The first
/// number literal from `at` on has index `k`.
pub open spec fn errors_from(s: Seq<u8>, at: int, valued: Seq<bool>, k: int) -> Seq<ErrorView>
    decreases s.len() - at,
{
    if 0 <= at < s.len() {
        proof {
            step_advances(s, at, has_value(valued, k));
        }
        let next = step(s, at, has_value(valued, k));
        let rest = errors_from(s, next.end, valued, next_number(s, at, k));
        match next.found {
            Found::Error(fault) => seq![error_at(s, fault, at, next.end)] + rest,
            _ => rest,
        }
    } else {
        seq![]
    }
}

/// Where the number literals of the source stand from offset `at` on, in
/// order, each as the offsets of its start and its end.
pub open spec fn number_ranges_from(s: Seq<u8>, at: int) -> Seq<(int, int)>
    decreases s.len() - at,
{
    if 0 <= at < s.len() {
        proof {
            step_advances(s, at, true);
        }
        let end = step(s, at, true).end;
        let rest = number_ranges_from(s, end);
        if is_digit(s[at]) {
            seq![(at, end)] + rest
        } else {
            rest
        }
    } else {
        seq![]
    }
}

/// Where the number literals of the source stand, in order.
pub open spec fn number_ranges(s: Seq<u8>) -> Seq<(int, int)> {
    number_ranges_from(s, 0)
}

/// The result of scanning a whole source, given which of its number
/// literals have a value: all its tokens where nothing is wrong with it,
/// and otherwise all its diagnostics, in source order, and no token.
pub open spec fn scan_with(s: Seq<u8>, valued: Seq<bool>) -> Result<
    Seq<TokenView>,
    Seq<ErrorView>,
> {
    if errors_from(s, 0, valued, 0).len() == 0 {
        Ok(tokens_from(s, 0, valued, 0))
    } else {
        Err(errors_from(s, 0, valued, 0))
    }
}

/// The result of scanning a whole source in which every number literal
/// has a value.
pub open spec fn scan(s: Seq<u8>) -> Result<Seq<TokenView>, Seq<ErrorView>> {
    scan_with(s, Seq::empty())
}

/// Whether what was gathered so far, followed by what the source holds from
/// `upto` on, is what the whole source holds.
pub open spec fn gathered(
    tokens: Seq<TokenView>,
    errors: Seq<ErrorView>,
    numbers: Seq<(int, int)>,
    s: Seq<u8>,
    valued: Seq<bool>,
    upto: int,
) -> bool {
    let k = numbers.len() as int;
    &&& tokens + tokens_from(s, upto, valued, k) == tokens_from(s, 0, valued, 0)
    &&& errors + errors_from(s, upto, valued, k) == errors_from(s, 0, valued, 0)
    &&& numbers + number_ranges_from(s, upto) == number_ranges(s)
}

/// Nothing is gathered before the scan starts.
pub proof fn gathered_at_start(s: Seq<u8>, valued: Seq<bool>)
    ensures
        gathered(Seq::empty(), Seq::empty(), Seq::empty(), s, valued, 0),
{
    assert(Seq::<TokenView>::empty() + tokens_from(s, 0, valued, 0) =~= tokens_from(
        s,
        0,
        valued,
        0,
    ));
    assert(Seq::<ErrorView>::empty() + errors_from(s, 0, valued, 0) =~= errors_from(
        s,
        0,
        valued,
        0,
    ));
    assert(Seq::<(int, int)>::empty() + number_ranges_from(s, 0) =~= number_ranges(s));
}

/// What is gathered after the cycle at `at`: the tokens.
pub open spec fn tokens_after(tokens: Seq<TokenView>, s: Seq<u8>, at: int, next: Step) -> Seq<
    TokenView,
> {
    match next.found {
        Found::Token(kind) => tokens.push(token_at(s, kind, at, next.end)),
        _ => tokens,
    }
}

/// What is gathered after the cycle at `at`: the diagnostics.
pub open spec fn errors_after(errors: Seq<ErrorView>, s: Seq<u8>, at: int, next: Step) -> Seq<
    ErrorView,
> {
    match next.found {
        Found::Error(fault) => errors.push(error_at(s, fault, at, next.end)),
        _ => errors,
    }
}

/// What is gathered after the cycle at `at`: the places of the number
/// literals.
pub open spec fn numbers_after(numbers: Seq<(int, int)>, s: Seq<u8>, at: int, next: Step) -> Seq<
    (int, int),
> {
    if is_digit(s[at]) {
        numbers.push((at, next.end))
    } else {
        numbers
    }
}

/// A cycle adds what it finds to what is gathered.
pub proof fn gathered_step(
    tokens: Seq<TokenView>,
    errors: Seq<ErrorView>,
    numbers: Seq<(int, int)>,
    s: Seq<u8>,
    valued: Seq<bool>,
    at: int,
)
    requires
        0 <= at < s.len(),
        gathered(tokens, errors, numbers, s, valued, at),
    ensures
        ({
            let next = step(s, at, has_value(valued, numbers.len() as int));
            gathered(
                tokens_after(tokens, s, at, next),
                errors_after(errors, s, at, next),
                numbers_after(numbers, s, at, next),
                s,
                valued,
                next.end,
            )
        }),
{
    let k = numbers.len() as int;
    let next = step(s, at, has_value(valued, k));
    step_advances(s, at, has_value(valued, k));
    let k2 = next_number(s, at, k);
    assert(numbers_after(numbers, s, at, next).len() == k2);
    let rest_tokens = tokens_from(s, next.end, valued, k2);
    let rest_errors = errors_from(s, next.end, valued, k2);
    let rest_numbers = number_ranges_from(s, next.end);
    match next.found {
        Found::Token(kind) => {
            let token = token_at(s, kind, at, next.end);
            assert(tokens_from(s, at, valued, k) == seq![token] + rest_tokens);
            assert(tokens.push(token) + rest_tokens =~= tokens + (seq![token] + rest_tokens));
        },
        Found::Error(fault) => {
            let error = error_at(s, fault, at, next.end);
            assert(errors_from(s, at, valued, k) == seq![error] + rest_errors);
            assert(errors.push(error) + rest_errors =~= errors + (seq![error] + rest_errors));
        },
        Found::Nothing => {},
    }
    if is_digit(s[at]) {
        let place = (at, next.end);
        assert(number_ranges_from(s, at) == seq![place] + rest_numbers);
        assert(numbers.push(place) + rest_numbers =~= numbers + (seq![place] + rest_numbers));
    }
}

} // verus!
