//! The token filter that writes the text of the tokens in upper case.

use vstd::prelude::*;

use crate::error::LinderaResult;
use crate::token::{token_views, Token, TokenView};
use crate::token_filter::{replace_texts, with_text};

verus! {

pub const UPPERCASE_TOKEN_FILTER_NAME: &'static str = "uppercase";

/// The upper case of `text`, as `str::to_uppercase` gives it.
pub uninterp spec fn uppercase(text: Seq<char>) -> Seq<char>;

/// `str::to_uppercase` of the standard library. Trusted: the result is the
/// text that `uppercase` names.
pub assume_specification[ str::to_uppercase ](text: &str) -> (upper: String)
    ensures
        upper@ == uppercase(text@),
;

/// The tokens `tokens`, each with its text in upper case.
pub open spec fn all_uppercase(tokens: Seq<TokenView>) -> Seq<TokenView> {
    tokens.map_values(|token: TokenView| with_text(token, Some(uppercase(token.text))))
}

/// Writes the text of every token in upper case.
#[derive(Clone, Copy, Debug)]
pub struct UppercaseTokenFilter {}

impl Default for UppercaseTokenFilter {
    fn default() -> (filter: Self)
        ensures
            filter == (UppercaseTokenFilter {  }),
    {
        Self::new()
    }
}

impl UppercaseTokenFilter {
    pub fn new() -> (filter: Self)
        ensures
            filter == (UppercaseTokenFilter {  }),
    {
        Self {  }
    }

    /// The tokens `tokens` as the filter leaves them.
    pub open spec fn filtered(self, tokens: Seq<TokenView>) -> Seq<TokenView> {
        all_uppercase(tokens)
    }

    /// The name by which a configuration asks for this filter.
    pub fn name(&self) -> (name: &'static str)
        ensures
            name@ == UPPERCASE_TOKEN_FILTER_NAME@,
    {
        UPPERCASE_TOKEN_FILTER_NAME
    }

    /// Replaces the text of every token by its upper case. Positions and
    /// features stay.
    pub fn apply(&self, tokens: &mut Vec<Token>) -> (done: LinderaResult<()>)
        ensures
            done is Ok,
            token_views(final(tokens)@) == self.filtered(token_views(old(tokens)@)),
    {
        let mut texts: Vec<Option<String>> = Vec::new();
        let mut i: usize = 0;
        while i < tokens.len()
            invariant
                i <= tokens@.len(),
                tokens@ == old(tokens)@,
                texts@.len() == i,
                forall|j: int|
                    0 <= j < i ==> ((#[trigger] texts@[j]) matches Some(text) && text@ == uppercase(
                        tokens@[j].text@,
                    )),
            decreases tokens@.len() - i,
        {
            texts.push(Some(tokens[i].text.as_str().to_uppercase()));
            i = i + 1;
        }
        replace_texts(tokens, texts);
        proof {
            assert(token_views(tokens@) =~= self.filtered(token_views(old(tokens)@)));
        }
        Ok(())
    }
}

} // verus!
