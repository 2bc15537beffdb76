//! The token: the unit that segmentation yields and token filters work on.

use vstd::prelude::*;

verus! {

/// A morpheme of the analyzed text.
#[derive(Debug, Clone, PartialEq, Eq)]
pub struct Token {
    /// The surface of the token. Filters may replace it.
    pub text: String,
    /// The morphological features of the token, the part of speech first.
    /// Absent where segmentation was asked for surfaces only.
    pub details: Option<Vec<String>>,
    /// The byte position at which the token starts.
    pub byte_start: usize,
    /// The byte position at which the token ends.
    pub byte_end: usize,
}

/// What a token holds, as mathematical values.
pub struct TokenView {
    pub text: Seq<char>,
    pub details: Option<Seq<Seq<char>>>,
    pub byte_start: usize,
    pub byte_end: usize,
}

/// The strings of `strings`, each as its sequence of scalars.
pub open spec fn string_views(strings: Seq<String>) -> Seq<Seq<char>> {
    Seq::new(strings.len(), |i: int| strings[i]@)
}

impl View for Token {
    type V = TokenView;

    open spec fn view(&self) -> TokenView {
        TokenView {
            text: self.text@,
            details: match self.details {
                Some(details) => Some(string_views(details@)),
                None => None,
            },
            byte_start: self.byte_start,
            byte_end: self.byte_end,
        }
    }
}

/// The tokens of `tokens`, each as its view.
pub open spec fn token_views(tokens: Seq<Token>) -> Seq<TokenView> {
    Seq::new(tokens.len(), |i: int| tokens[i]@)
}

} // verus!
