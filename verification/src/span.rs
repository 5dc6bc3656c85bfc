//! Spans of the diagnostic renderer, as far as the scanner needs them.

use miette::SourceOffset;
use miette::SourceSpan;
use vstd::prelude::*;

verus! {

/// `miette::SourceSpan`, taken as it stands: verified code hands such a
/// value on and never looks into it. What it holds is spoken of through
/// [`span_offset`] and [`span_len`] alone.
#[verifier::external_type_specification]
#[verifier::external_body]
pub struct ExSourceSpan(SourceSpan);

/// The byte offset at which a span starts: what `SourceSpan::offset`
/// returns for it.
pub uninterp spec fn span_offset(span: SourceSpan) -> usize;

/// The number of bytes that a span covers: what `SourceSpan::len` returns
/// for it.
pub uninterp spec fn span_len(span: SourceSpan) -> usize;

/// Calls `SourceSpan::new` on `SourceOffset::from(offset)` and `len`.
///
/// Not proved, but taken from the renderer's source: the span that comes
/// back starts at `offset` and covers `len` bytes. `new` stores its two
/// arguments, and `offset` and `len` hand them back.
#[verifier::external_body]
pub(crate) fn span_at(offset: usize, len: usize) -> (span: SourceSpan)
    ensures
        span_offset(span) == offset,
        span_len(span) == len,
{
    SourceSpan::new(SourceOffset::from(offset), len)
}

} // verus!
