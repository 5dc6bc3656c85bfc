//! A cursor over the tokens of a scan, for a parser to read them by.

use crate::token::token_views;
use crate::token::Kind;
use crate::token::Token;
use crate::token::TokenType;
use crate::token::TokenView;
use vstd::prelude::*;
use vstd::slice::slice_index_get;

verus! {

/// The tokens of a scan, and the index of the next one to read.
pub struct Parser<'a> {
    tokens: Vec<Token<'a>>,
    position: usize,
}

/// Whether one of `kinds` is `kind`.
pub open spec fn names(kinds: Seq<TokenType>, kind: Kind) -> bool {
    exists|i: int| 0 <= i < kinds.len() && (#[trigger] kinds[i])@ == kind
}

impl<'a> Parser<'a> {
    /// The tokens that the parser reads.
    pub closed spec fn tokens(&self) -> Seq<TokenView> {
        token_views(self.tokens@)
    }

    /// The index of the next token to read.
    pub closed spec fn cursor(&self) -> int {
        self.position as int
    }

    /// The cursor stands at a token, and the last token ends the input.
    pub open spec fn wf(&self) -> bool {
        &&& 0 <= self.cursor() < self.tokens().len()
        &&& self.tokens().last().kind == Kind::Eof
    }

    /// The token at the cursor.
    pub open spec fn current(&self) -> TokenView {
        self.tokens()[self.cursor()]
    }

    /// Whether the token at the cursor ends the input.
    pub open spec fn at_end(&self) -> bool {
        self.current().kind == Kind::Eof
    }

    /// A parser at the first of `tokens`. It is well formed where `tokens`
    /// is what a scan returned: not empty, with the end of the input last.
    pub fn new(tokens: Vec<Token<'a>>) -> (parser: Self)
        ensures
            parser.tokens() == token_views(tokens@),
            parser.cursor() == 0,
    {
        Self { tokens, position: 0 }
    }

    /// Steps over the token at the cursor where it is one of `token_types`,
    /// and says whether it did.
    pub fn match_types(&mut self, token_types: &[TokenType]) -> (found: bool)
        requires
            old(self).wf(),
        ensures
            final(self).wf(),
            final(self).tokens() == old(self).tokens(),
            found == (!old(self).at_end() && names(token_types@, old(self).current().kind)),
            final(self).cursor() == if found {
                old(self).cursor() + 1
            } else {
                old(self).cursor()
            },
    {
        let mut i: usize = 0;
        while i < token_types.len()
            invariant
                self.wf(),
                *self == *old(self),
                i <= token_types.len(),
                forall|j: int|
                    0 <= j < i ==> self.at_end() || (#[trigger] token_types@[j])@
                        != self.current().kind,
            decreases token_types.len() - i,
        {
            if self.check(slice_index_get(token_types, i)) {
                self.advance();
                return true;
            }
            i = i + 1;
        }
        false
    }

    /// Whether the token at the cursor is of the given kind and does not
    /// end the input.
    pub fn check(&self, token_type: &TokenType) -> (same: bool)
        requires
            self.wf(),
        ensures
            same == (!self.at_end() && self.current().kind == token_type@),
    {
        if self.is_at_end() {
            false
        } else {
            self.peek().token_type == *token_type
        }
    }

    /// Steps over the token at the cursor, unless it ends the input, and
    /// returns the token before the cursor.
    pub fn advance(&mut self) -> (token: &Token<'a>)
        requires
            old(self).wf(),
            old(self).cursor() > 0 || !old(self).at_end(),
        ensures
            final(self).wf(),
            final(self).tokens() == old(self).tokens(),
            final(self).cursor() == if old(self).at_end() {
                old(self).cursor()
            } else {
                old(self).cursor() + 1
            },
            token@ == final(self).tokens()[final(self).cursor() - 1],
    {
        if !self.is_at_end() {
            let count = self.tokens.len();
            assert(self.tokens().len() == count);
            assert(self.tokens().last() == self.tokens()[count - 1]);
            self.position += 1;
        }
        self.previous()
    }

    /// Whether the token at the cursor ends the input.
    pub fn is_at_end(&self) -> (at_end: bool)
        requires
            self.wf(),
        ensures
            at_end == self.at_end(),
    {
        matches!(self.peek().token_type, TokenType::Eof)
    }

    /// The token at the cursor.
    pub fn peek(&self) -> (token: &Token<'a>)
        requires
            self.wf(),
        ensures
            token@ == self.current(),
    {
        &self.tokens[self.position]
    }

    /// The token before the cursor.
    pub fn previous(&self) -> (token: &Token<'a>)
        requires
            0 < self.cursor() <= self.tokens().len(),
        ensures
            token@ == self.tokens()[self.cursor() - 1],
    {
        &self.tokens[self.position - 1]
    }
}

} // verus!
