//! Byte offsets into a string, and the substrings between them.

use crate::grammar::is_trailing;
use crate::grammar::run_end;
use crate::grammar::run_end_is_first_stop;
use crate::grammar::Run;
use vstd::prelude::*;
use vstd::string::StringSliceAdditionalSpecFns;
use vstd::utf8::encode_utf8_valid_utf8;
use vstd::utf8::is_char_boundary;
use vstd::utf8::is_char_boundary_iff_not_is_continuation_byte;
use vstd::utf8::is_char_boundary_start_end_of_seq;
use vstd::utf8::length_of_first_scalar;
use vstd::utf8::pop_first_scalar;
use vstd::utf8::valid_first_scalar;
use vstd::utf8::valid_utf8;
use vstd::utf8::valid_utf8_split;

verus! {

/// Whether a character starts at offset `at`, or the text ends there.
pub open spec fn boundary(s: Seq<u8>, at: int) -> bool {
    at == s.len() || (0 <= at < s.len() && !is_trailing(s[at]))
}

/// In well-formed text, a character starts exactly where `boundary` says.
pub proof fn boundary_starts_character(s: Seq<u8>, at: int)
    requires
        valid_utf8(s),
        boundary(s, at),
    ensures
        is_char_boundary(s, at),
{
    if at == s.len() {
        is_char_boundary_start_end_of_seq(s);
    } else {
        is_char_boundary_iff_not_is_continuation_byte(s, at);
    }
}

/// Well-formed text starts with a character, or is empty.
pub proof fn boundary_at_start(s: Seq<u8>)
    requires
        valid_utf8(s),
    ensures
        boundary(s, 0),
{
    if s.len() > 0 {
        is_char_boundary_start_end_of_seq(s);
        is_char_boundary_iff_not_is_continuation_byte(s, 0);
    }
}

/// In well-formed text, a new character starts after every ASCII byte.
pub proof fn boundary_after_ascii(s: Seq<u8>, at: int)
    requires
        valid_utf8(s),
        0 <= at < s.len(),
        s[at] < 0x80,
    ensures
        boundary(s, at + 1),
{
    boundary_starts_character(s, at);
    valid_utf8_split(s, at);
    let tail = s.subrange(at, s.len() as int);
    assert(tail[0] == s[at]);
    assert(valid_first_scalar(tail));
    assert(length_of_first_scalar(tail) == 1);
    let rest = pop_first_scalar(tail);
    assert(valid_utf8(rest));
    if at + 1 < s.len() {
        assert(rest[0] == s[at + 1]);
        assert(valid_first_scalar(rest));
    }
}

/// In well-formed text, an ASCII byte is a whole character: no trailing
/// byte follows it.
pub proof fn ascii_is_one_byte(s: Seq<u8>, at: int)
    requires
        valid_utf8(s),
        0 <= at < s.len(),
        s[at] < 0x80,
    ensures
        run_end(s, at + 1, Run::Trailing) == at + 1,
{
    boundary_after_ascii(s, at);
}

/// The character that starts at a boundary ends at a boundary.
pub proof fn character_ends_at_boundary(s: Seq<u8>, at: int)
    requires
        0 <= at < s.len(),
    ensures
        at < run_end(s, at + 1, Run::Trailing) <= s.len(),
        boundary(s, run_end(s, at + 1, Run::Trailing)),
        forall|i: int| at < i < run_end(s, at + 1, Run::Trailing) ==> is_trailing(#[trigger] s[i]),
{
    run_end_is_first_stop(s, at + 1, Run::Trailing);
}

/// The part of `source` from byte `start` up to byte `end`.
pub fn slice<'a>(source: &'a str, start: usize, end: usize) -> (part: &'a str)
    requires
        start <= end <= source.spec_bytes().len(),
        boundary(source.spec_bytes(), start as int),
        boundary(source.spec_bytes(), end as int),
    ensures
        part.spec_bytes() == source.spec_bytes().subrange(start as int, end as int),
{
    proof {
        encode_utf8_valid_utf8(source@);
        boundary_starts_character(source.spec_bytes(), end as int);
    }
    let (head, _) = source.split_at(end);
    proof {
        encode_utf8_valid_utf8(head@);
        boundary_starts_character(head.spec_bytes(), start as int);
    }
    let (_, part) = head.split_at(start);
    part
}

} // verus!
