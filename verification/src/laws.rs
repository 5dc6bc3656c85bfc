//! What holds of every scan.

use crate::errors::ErrorView;
use crate::errors::ScannerError;
use crate::grammar::errors_from;
use crate::grammar::has_value;
use crate::grammar::is_blank;
use crate::grammar::is_digit;
use crate::grammar::next_number;
use crate::grammar::number_end;
use crate::grammar::number_ranges;
use crate::grammar::number_ranges_from;
use crate::grammar::scan;
use crate::grammar::scan_with;
use crate::grammar::step;
use crate::grammar::step_advances;
use crate::grammar::token_at;
use crate::grammar::tokens_from;
use crate::grammar::Found;
use crate::scanner::outcome;
use crate::token::Kind;
use crate::token::Token;
use crate::token::TokenView;
use vstd::prelude::*;

verus! {

/// The end-of-input token of a source.
pub open spec fn end_token(s: Seq<u8>) -> TokenView {
    token_at(s, Kind::Eof, s.len() as int, s.len() as int)
}

/// Whether every token lies in the source, from `floor` on, with its text
/// as its lexeme, and every token ends before any later one starts, so
/// that no two overlap and the starts do not decrease.
pub open spec fn in_order(tokens: Seq<TokenView>, s: Seq<u8>, floor: int) -> bool {
    &&& forall|i: int|
        0 <= i < tokens.len() ==> {
            &&& floor <= (#[trigger] tokens[i]).start <= tokens[i].end <= s.len()
            &&& tokens[i].lexeme == s.subrange(tokens[i].start, tokens[i].end)
        }
    &&& forall|i: int, j: int|
        0 <= i < j < tokens.len() ==> {
            &&& (#[trigger] tokens[i]).end <= (#[trigger] tokens[j]).start
            &&& tokens[i].start <= tokens[j].start
        }
}

/// Whether no token but the last ends the input.
pub open spec fn ends_once(tokens: Seq<TokenView>) -> bool {
    forall|i: int| 0 <= i < tokens.len() - 1 ==> (#[trigger] tokens[i]).kind != Kind::Eof
}

proof fn blank_tail_is_empty(s: Seq<u8>, at: int, valued: Seq<bool>, k: int)
    requires
        0 <= at <= s.len(),
        forall|i: int| 0 <= i < s.len() ==> is_blank(#[trigger] s[i]),
    ensures
        tokens_from(s, at, valued, k) == seq![end_token(s)],
        errors_from(s, at, valued, k) == Seq::<ErrorView>::empty(),
    decreases s.len() - at,
{
    if at < s.len() {
        assert(is_blank(s[at]));
        let next = step(s, at, has_value(valued, k));
        assert(next.found == Found::Nothing);
        assert(next.end == at + 1);
        blank_tail_is_empty(s, at + 1, valued, next_number(s, at, k));
    }
}

/// A source that holds nothing but blank space scans to the end-of-input
/// token alone, and gives no diagnostic.
pub proof fn blank_source_scans_to_end_token(s: Seq<u8>, valued: Seq<bool>)
    requires
        forall|i: int| 0 <= i < s.len() ==> is_blank(#[trigger] s[i]),
    ensures
        scan_with(s, valued) == Ok::<Seq<TokenView>, Seq<ErrorView>>(seq![end_token(s)]),
        scan(s) == Ok::<Seq<TokenView>, Seq<ErrorView>>(seq![end_token(s)]),
{
    blank_tail_is_empty(s, 0, valued, 0);
    blank_tail_is_empty(s, 0, Seq::empty(), 0);
}

proof fn tail_is_in_order(s: Seq<u8>, at: int, valued: Seq<bool>, k: int)
    requires
        0 <= at <= s.len(),
    ensures
        in_order(tokens_from(s, at, valued, k), s, at),
        tokens_from(s, at, valued, k).len() > 0,
        tokens_from(s, at, valued, k).last() == end_token(s),
        ends_once(tokens_from(s, at, valued, k)),
    decreases s.len() - at,
{
    if at < s.len() {
        let next = step(s, at, has_value(valued, k));
        step_advances(s, at, has_value(valued, k));
        let k2 = next_number(s, at, k);
        tail_is_in_order(s, next.end, valued, k2);
        let rest = tokens_from(s, next.end, valued, k2);
        match next.found {
            Found::Token(kind) => {
                let tokens = tokens_from(s, at, valued, k);
                let first = token_at(s, kind, at, next.end);
                assert(tokens == seq![first] + rest);
                assert(tokens[0] == first);
                assert forall|i: int| 1 <= i < tokens.len() implies tokens[i] == rest[i - 1] by {}
                assert(tokens.last() == rest.last());
                assert(kind != Kind::Eof);
                assert forall|i: int| 0 <= i < tokens.len() - 1 implies (#[trigger] tokens[i]).kind
                    != Kind::Eof by {
                    if i > 0 {
                        assert(tokens[i] == rest[i - 1]);
                    }
                }
                assert forall|i: int| 0 <= i < tokens.len() implies {
                    &&& at <= (#[trigger] tokens[i]).start <= tokens[i].end <= s.len()
                    &&& tokens[i].lexeme == s.subrange(tokens[i].start, tokens[i].end)
                } by {
                    if i > 0 {
                        assert(tokens[i] == rest[i - 1]);
                    }
                }
                assert forall|i: int, j: int| 0 <= i < j < tokens.len() implies {
                    &&& (#[trigger] tokens[i]).end <= (#[trigger] tokens[j]).start
                    &&& tokens[i].start <= tokens[j].start
                } by {
                    assert(tokens[j] == rest[j - 1]);
                    if i > 0 {
                        assert(tokens[i] == rest[i - 1]);
                    }
                }
            },
            _ => {},
        }
    }
}

/// In the tokens of a successful scan, every token lies in the source and
/// has the text of its range as its lexeme; no token starts before the one
/// before it ends, so that the ranges do not overlap and their starts do
/// not decrease; and the last token, and no other, is the end-of-input
/// token, whose range is empty and stands at the end of the source.
pub proof fn token_ranges_are_ordered(s: Seq<u8>, valued: Seq<bool>, tokens: Seq<TokenView>)
    requires
        scan_with(s, valued) == Ok::<Seq<TokenView>, Seq<ErrorView>>(tokens),
    ensures
        in_order(tokens, s, 0),
        tokens.len() > 0,
        tokens.last() == end_token(s),
        tokens.last().start == s.len(),
        tokens.last().end == s.len(),
        ends_once(tokens),
{
    tail_is_in_order(s, 0, valued, 0);
}

/// A scan gives tokens or diagnostics, never both and never neither: it
/// fails exactly where the source gives rise to a diagnostic, and then it
/// gives every diagnostic.
pub proof fn scan_fails_on_errors_only(s: Seq<u8>, valued: Seq<bool>)
    ensures
        scan_with(s, valued) is Err <==> errors_from(s, 0, valued, 0).len() > 0,
        scan_with(s, valued) is Ok ==> scan_with(s, valued) == Ok::<
            Seq<TokenView>,
            Seq<ErrorView>,
        >(tokens_from(s, 0, valued, 0)),
        scan_with(s, valued) is Err ==> scan_with(s, valued) == Err::<
            Seq<TokenView>,
            Seq<ErrorView>,
        >(errors_from(s, 0, valued, 0)),
{
}

/// Scanning the same source twice, with the same number literals valued,
/// gives the same tokens, or the same diagnostics: what a scan returns
/// depends on the bytes of the source and on those values alone.
pub proof fn rescan_agrees(
    s: Seq<u8>,
    valued: Seq<bool>,
    first: Result<Vec<Token>, Vec<ScannerError>>,
    second: Result<Vec<Token>, Vec<ScannerError>>,
)
    requires
        outcome(first) == scan_with(s, valued),
        outcome(second) == scan_with(s, valued),
    ensures
        outcome(first) == outcome(second),
{
}

proof fn number_tail_lies_in_source(s: Seq<u8>, at: int)
    requires
        0 <= at <= s.len(),
    ensures
        forall|k: int|
            0 <= k < number_ranges_from(s, at).len() ==> {
                let place = #[trigger] number_ranges_from(s, at)[k];
                &&& at <= place.0 < place.1 <= s.len()
                &&& is_digit(s[place.0])
                &&& place.1 == number_end(s, place.0)
            },
    decreases s.len() - at,
{
    if at < s.len() {
        step_advances(s, at, true);
        let end = step(s, at, true).end;
        number_tail_lies_in_source(s, end);
        let rest = number_ranges_from(s, end);
        let places = number_ranges_from(s, at);
        if is_digit(s[at]) {
            assert(places == seq![(at, end)] + rest);
            assert forall|k: int| 0 <= k < places.len() implies {
                let place = #[trigger] places[k];
                &&& at <= place.0 < place.1 <= s.len()
                &&& is_digit(s[place.0])
                &&& place.1 == number_end(s, place.0)
            } by {
                if k > 0 {
                    assert(places[k] == rest[k - 1]);
                }
            }
        }
    }
}

/// Every number literal lies in the source, is not empty, starts on a
/// digit, and ends where the grammar ends a number that starts there.
pub proof fn number_literals_lie_in_source(s: Seq<u8>)
    ensures
        forall|k: int|
            0 <= k < number_ranges(s).len() ==> {
                let place = #[trigger] number_ranges(s)[k];
                &&& 0 <= place.0 < place.1 <= s.len()
                &&& is_digit(s[place.0])
                &&& place.1 == number_end(s, place.0)
            },
{
    number_tail_lies_in_source(s, 0);
}

} // verus!
