//! A forward-only sequence of tokens with lookahead.

use vstd::prelude::*;

use crate::token::{tokens_view, TokenV, XmlToken};

verus! {

pub struct TokenStream<'a> {
    pub pos: usize,
    pub tokens: Vec<XmlToken<'a>>,
}

impl<'a> TokenStream<'a> {
    /// The models of all tokens of the stream, read or not.
    pub open spec fn items(&self) -> Seq<TokenV> {
        tokens_view(self.tokens@)
    }

    /// A stream that starts at the first of `tokens`.
    pub fn new(tokens: Vec<XmlToken<'a>>) -> (r: Self)
        ensures
            r.pos == 0,
            r.tokens@ == tokens@,
    {
        TokenStream { pos: 0, tokens }
    }

    /// The next token; the stream moves past it.
    pub fn next(&mut self) -> (r: XmlToken<'a>)
        requires
            old(self).pos < old(self).tokens.len(),
        ensures
            r == old(self).tokens@[old(self).pos as int],
            final(self).pos == old(self).pos + 1,
            final(self).tokens == old(self).tokens,
    {
        let token = self.tokens[self.pos];
        self.pos = self.pos + 1;
        token
    }

    /// The next token, left in the stream.
    pub fn peek(&self) -> (r: &XmlToken<'a>)
        requires
            self.pos < self.tokens@.len(),
        ensures
            *r == self.tokens@[self.pos as int],
    {
        &self.tokens[self.pos]
    }

    /// The token `k` places after the next one, left in the stream.
    pub fn peek_n(&self, k: usize) -> (r: &XmlToken<'a>)
        requires
            self.pos + k < self.tokens.len(),
        ensures
            *r == self.tokens@[self.pos + k],
    {
        &self.tokens[self.pos + k]
    }

    pub fn has_next(&self) -> (r: bool)
        ensures
            r == (self.pos < self.tokens@.len()),
    {
        self.pos < self.tokens.len()
    }
}

impl Default for TokenStream<'_> {
    fn default() -> (r: Self)
        ensures
            r.pos == 0,
            r.tokens@.len() == 0,
    {
        TokenStream { pos: 0, tokens: Vec::new() }
    }
}

} // verus!
