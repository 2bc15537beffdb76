//! The token filter that writes the text of the tokens in lower case.

use vstd::prelude::*;

use crate::error::LinderaResult;
use crate::token::{token_views, Token, TokenView};
use crate::token_filter::{replace_texts, with_text};

verus! {

pub const LOWERCASE_TOKEN_FILTER_NAME: &'static str = "lowercase";

/// The lower case of `text`, as `str::to_lowercase` gives it.
pub uninterp spec fn lowercase(text: Seq<char>) -> Seq<char>;

/// `str::to_lowercase` of the standard library. Trusted: the result is the
/// text that `lowercase` names.
pub assume_specification[ str::to_lowercase ](text: &str) -> (lower: String)
    ensures
        lower@ == lowercase(text@),
;

/// The tokens `tokens`, each with its text in lower case.
pub open spec fn all_lowercase(tokens: Seq<TokenView>) -> Seq<TokenView> {
    tokens.map_values(|token: TokenView| with_text(token, Some(lowercase(token.text))))
}

/// Writes the text of every token in lower case.
#[derive(Clone, Copy, Debug)]
pub struct LowercaseTokenFilter {}

impl Default for LowercaseTokenFilter {
    fn default() -> (filter: Self)
        ensures
            filter == (LowercaseTokenFilter {  }),
    {
        Self::new()
    }
}

impl LowercaseTokenFilter {
    pub fn new() -> (filter: Self)
        ensures
            filter == (LowercaseTokenFilter {  }),
    {
        Self {  }
    }

    /// The tokens `tokens` as the filter leaves them.
    pub open spec fn filtered(self, tokens: Seq<TokenView>) -> Seq<TokenView> {
        all_lowercase(tokens)
    }

    /// The name by which a configuration asks for this filter.
    pub fn name(&self) -> (name: &'static str)
        ensures
            name@ == LOWERCASE_TOKEN_FILTER_NAME@,
    {
        LOWERCASE_TOKEN_FILTER_NAME
    }

    /// Replaces the text of every token by its lower case. Positions and
    /// features stay.
    pub fn apply(&self, tokens: &mut Vec<Token>) -> (done: LinderaResult<()>)
        ensures
            done is Ok,
            token_views(final(tokens)@) == self.filtered(token_views(old(tokens)@)),
    {
        let mut texts: Vec<Option<String>> = Vec::new();
        let mut i: usize = 0;
        while i < tokens.len()
            invariant
                i <= tokens@.len(),
                tokens@ == old(tokens)@,
                texts@.len() == i,
                forall|j: int|
                    0 <= j < i ==> ((#[trigger] texts@[j]) matches Some(text) && text@ == lowercase(
                        tokens@[j].text@,
                    )),
            decreases tokens@.len() - i,
        {
            texts.push(Some(tokens[i].text.as_str().to_lowercase()));
            i = i + 1;
        }
        replace_texts(tokens, texts);
        proof {
            assert(token_views(tokens@) =~= self.filtered(token_views(old(tokens)@)));
        }
        Ok(())
    }
}

} // verus!
