//! The token filter that replaces the text of Korean tokens by their
//! reading.

use vstd::prelude::*;

use crate::error::LinderaResult;
use crate::token::{token_views, Token, TokenView};
use crate::token_filter::{detail_at, detail_of, replace_texts, with_text};

verus! {

pub const KOREAN_READING_FORM_TOKEN_FILTER_NAME: &'static str = "korean_reading_form";

/// The place of the reading among the features that a Korean dictionary
/// gives a token.
pub const KOREAN_READING_INDEX: usize = 3;

/// The tokens `tokens`, each with its reading for text where its features
/// give one.
pub open spec fn all_korean_readings(tokens: Seq<TokenView>) -> Seq<TokenView> {
    tokens.map_values(
        |token: TokenView| with_text(token, detail_at(token, KOREAN_READING_INDEX as int)),
    )
}

/// Replaces the text of the tokens by their reading.
#[derive(Clone, Copy, Debug)]
pub struct KoreanReadingFormTokenFilter {}

impl Default for KoreanReadingFormTokenFilter {
    fn default() -> (filter: Self)
        ensures
            filter == (KoreanReadingFormTokenFilter {  }),
    {
        Self::new()
    }
}

impl KoreanReadingFormTokenFilter {
    pub fn new() -> (filter: Self)
        ensures
            filter == (KoreanReadingFormTokenFilter {  }),
    {
        Self {  }
    }

    /// The tokens `tokens` as the filter leaves them.
    pub open spec fn filtered(self, tokens: Seq<TokenView>) -> Seq<TokenView> {
        all_korean_readings(tokens)
    }

    /// The name by which a configuration asks for this filter.
    pub fn name(&self) -> (name: &'static str)
        ensures
            name@ == KOREAN_READING_FORM_TOKEN_FILTER_NAME@,
    {
        KOREAN_READING_FORM_TOKEN_FILTER_NAME
    }

    /// Replaces the text of every token whose features give a reading by
    /// that reading. Positions and features stay, and so does every token
    /// without the feature.
    pub fn apply(&self, tokens: &mut Vec<Token>) -> (done: LinderaResult<()>)
        ensures
            done is Ok,
            token_views(final(tokens)@) == self.filtered(token_views(old(tokens)@)),
    {
        let mut texts: Vec<Option<String>> = Vec::new();
        let mut i: usize = 0;
        while i < tokens.len()
            invariant
                i <= tokens@.len(),
                tokens@ == old(tokens)@,
                texts@.len() == i,
                forall|j: int|
                    0 <= j < i ==> match #[trigger] texts@[j] {
                        Some(text) => detail_at(tokens@[j]@, KOREAN_READING_INDEX as int) == Some(
                            text@,
                        ),
                        None => detail_at(tokens@[j]@, KOREAN_READING_INDEX as int) is None,
                    },
            decreases tokens@.len() - i,
        {
            let text = match detail_of(&tokens[i], KOREAN_READING_INDEX) {
                Some(reading) => Some(reading.clone()),
                None => None,
            };
            texts.push(text);
            i = i + 1;
        }
        replace_texts(tokens, texts);
        proof {
            assert(token_views(tokens@) =~= self.filtered(token_views(old(tokens)@)));
        }
        Ok(())
    }
}

} // verus!
