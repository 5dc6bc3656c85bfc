//! Diagnostics: what a scan reports in place of tokens.

use crate::span::span_len;
use crate::span::span_offset;
use miette::SourceSpan;
use vstd::prelude::*;
use vstd::utf8::encode_utf8;

verus! {

/// A lexical error. Each one carries a copy of the whole source and the
/// span of the text at fault.
#[derive(Debug)]
pub enum ScannerError {
    /// A character that starts no token.
    IllegalToken { src: String, span: SourceSpan },
    /// A string literal that is still open where the source ends.
    UnterminatedString { src: String, span: SourceSpan },
    /// A number literal that has no numeric value.
    NumberConversion { src: String, span: SourceSpan },
}

impl Clone for ScannerError {
    fn clone(&self) -> (copy: Self)
        ensures
            copy == *self,
    {
        match self {
            ScannerError::IllegalToken { src, span } => ScannerError::IllegalToken {
                src: src.clone(),
                span: *span,
            },
            ScannerError::UnterminatedString { src, span } => ScannerError::UnterminatedString {
                src: src.clone(),
                span: *span,
            },
            ScannerError::NumberConversion { src, span } => ScannerError::NumberConversion {
                src: src.clone(),
                span: *span,
            },
        }
    }
}

/// What is wrong with a piece of source text.
#[derive(Debug, Clone, Copy, PartialEq, Eq, Structural)]
pub enum Fault {
    IllegalToken,
    UnterminatedString,
    NumberConversion,
}

impl ScannerError {
    /// The diagnostic of the given kind for the given source and span.
    pub fn new(fault: Fault, src: String, span: SourceSpan) -> (error: Self)
        ensures
            error@ == (ErrorView {
                fault,
                src: encode_utf8(src@),
                offset: span_offset(span) as int,
                len: span_len(span) as int,
            }),
    {
        match fault {
            Fault::IllegalToken => ScannerError::IllegalToken { src, span },
            Fault::UnterminatedString => ScannerError::UnterminatedString { src, span },
            Fault::NumberConversion => ScannerError::NumberConversion { src, span },
        }
    }
}

/// The mathematical value of a [`ScannerError`]: its kind, the bytes of
/// the source it carries, and its span as offset and length.
pub ghost struct ErrorView {
    pub fault: Fault,
    pub src: Seq<u8>,
    pub offset: int,
    pub len: int,
}

impl View for ScannerError {
    type V = ErrorView;

    open spec fn view(&self) -> ErrorView {
        match *self {
            ScannerError::IllegalToken { src, span } => ErrorView {
                fault: Fault::IllegalToken,
                src: encode_utf8(src@),
                offset: span_offset(span) as int,
                len: span_len(span) as int,
            },
            ScannerError::UnterminatedString { src, span } => ErrorView {
                fault: Fault::UnterminatedString,
                src: encode_utf8(src@),
                offset: span_offset(span) as int,
                len: span_len(span) as int,
            },
            ScannerError::NumberConversion { src, span } => ErrorView {
                fault: Fault::NumberConversion,
                src: encode_utf8(src@),
                offset: span_offset(span) as int,
                len: span_len(span) as int,
            },
        }
    }
}

/// The values of a sequence of diagnostics, in order.
pub open spec fn error_views(errors: Seq<ScannerError>) -> Seq<ErrorView> {
    errors.map_values(|error: ScannerError| error@)
}

} // verus!

