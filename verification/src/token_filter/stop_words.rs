//! The token filter that removes the tokens of given words.

use vstd::prelude::*;
use vstd::string::StringExecFns;

use crate::error::{LinderaErrorKind, LinderaResult};
use crate::json::{json_document, Json};
use crate::token::{string_views, token_views, Token, TokenView};
use crate::token_filter::{
    clone_strings, contains_string, distinct, distinct_strings, lemma_flagged_is_filter,
    retain_flagged, stopped_by_words,
};

verus! {

pub const STOP_WORDS_TOKEN_FILTER_NAME: &'static str = "stop_words";

/// The words to remove: a set, held as a list without repetition.
#[derive(Debug, PartialEq, Eq)]
pub struct StopWordsTokenFilterConfig {
    pub words: Vec<String>,
}

impl Clone for StopWordsTokenFilterConfig {
    fn clone(&self) -> (copy: Self)
        ensures
            string_views(copy.words@) == string_views(self.words@),
    {
        Self { words: clone_strings(&self.words) }
    }
}

impl StopWordsTokenFilterConfig {
    /// The configuration with the words of `words`, each once, in the
    /// order in which they first occur.
    pub fn new(words: Vec<String>) -> (config: Self)
        ensures
            string_views(config.words@) == distinct(string_views(words@)),
            string_views(config.words@).no_duplicates(),
    {
        Self { words: distinct_strings(words) }
    }

    /// The words of the configuration that the JSON value `value`
    /// describes: an object whose member `words` is an array of strings.
    /// Other members are not looked at.
    pub open spec fn of_json(value: Json) -> Option<Seq<Seq<char>>> {
        match value.texts_member("words"@) {
            Some(words) => Some(distinct(words)),
            None => None,
        }
    }

    /// The words of the configuration that the JSON document in `data`
    /// describes.
    pub open spec fn of_document(data: Seq<u8>) -> Option<Seq<Seq<char>>> {
        match json_document(data) {
            Some(value) => Self::of_json(value),
            None => None,
        }
    }

    /// Reads the configuration from a JSON value. A value that describes
    /// none is an error of the kind `Deserialize`.
    pub fn from_value(value: &Json) -> (config: LinderaResult<Self>)
        ensures
            match Self::of_json(*value) {
                Some(words) => config matches Ok(c) && string_views(c.words@) == words,
                None => config matches Err(err) && err.kind == LinderaErrorKind::Deserialize,
            },
    {
        match value.get_strings("words") {
            Some(words) => Ok(Self::new(words)),
            None => Err(
                LinderaErrorKind::Deserialize.with_detail(
                    String::from_str("a word filter takes `words`, an array of strings"),
                ),
            ),
        }
    }

    /// Reads the configuration from a JSON document. Bytes that hold no
    /// document, or one that describes no configuration, are an error of
    /// the kind `Deserialize`.
    pub fn from_slice(data: &[u8]) -> (config: LinderaResult<Self>)
        ensures
            match Self::of_document(data@) {
                Some(words) => config matches Ok(c) && string_views(c.words@) == words,
                None => config matches Err(err) && err.kind == LinderaErrorKind::Deserialize,
            },
    {
        match Json::parse(data) {
            Ok(value) => Self::from_value(&value),
            Err(err) => Err(err),
        }
    }
}

/// Removes the tokens whose text is one of the configured words.
#[derive(Debug)]
pub struct StopWordsTokenFilter {
    config: StopWordsTokenFilterConfig,
}

impl Clone for StopWordsTokenFilter {
    fn clone(&self) -> (copy: Self)
        ensures
            copy.words() == self.words(),
    {
        Self { config: self.config.clone() }
    }
}

impl StopWordsTokenFilter {
    pub fn new(config: StopWordsTokenFilterConfig) -> (filter: Self)
        ensures
            filter.words() == string_views(config.words@),
    {
        Self { config }
    }

    /// Reads the filter's configuration from a JSON value. A value that
    /// describes none is an error of the kind `Deserialize`.
    pub fn from_value(value: &Json) -> (filter: LinderaResult<Self>)
        ensures
            match StopWordsTokenFilterConfig::of_json(*value) {
                Some(words) => filter matches Ok(f) && f.words() == words,
                None => filter matches Err(err) && err.kind == LinderaErrorKind::Deserialize,
            },
    {
        match StopWordsTokenFilterConfig::from_value(value) {
            Ok(config) => Ok(Self::new(config)),
            Err(err) => Err(err),
        }
    }

    /// Reads the filter's configuration from a JSON document. Bytes that
    /// hold no document, or one that describes no configuration, are an
    /// error of the kind `Deserialize`.
    pub fn from_slice(data: &[u8]) -> (filter: LinderaResult<Self>)
        ensures
            match StopWordsTokenFilterConfig::of_document(data@) {
                Some(words) => filter matches Ok(f) && f.words() == words,
                None => filter matches Err(err) && err.kind == LinderaErrorKind::Deserialize,
            },
    {
        match StopWordsTokenFilterConfig::from_slice(data) {
            Ok(config) => Ok(Self::new(config)),
            Err(err) => Err(err),
        }
    }

    /// The configured words.
    pub closed spec fn words(self) -> Seq<Seq<char>> {
        string_views(self.config.words@)
    }

    /// The name by which a configuration asks for this filter.
    pub fn name(&self) -> (name: &'static str)
        ensures
            name@ == STOP_WORDS_TOKEN_FILTER_NAME@,
    {
        STOP_WORDS_TOKEN_FILTER_NAME
    }

    /// Removes the tokens whose text is one of the configured words. The
    /// others stay, in their order and unchanged.
    pub fn apply(&self, tokens: &mut Vec<Token>) -> (done: LinderaResult<()>)
        ensures
            done is Ok,
            token_views(final(tokens)@) == stopped_by_words(token_views(old(tokens)@), self.words()),
    {
        let mut flags: Vec<bool> = Vec::new();
        let mut i: usize = 0;
        while i < tokens.len()
            invariant
                i <= tokens@.len(),
                tokens@ == old(tokens)@,
                flags@.len() == i,
                forall|j: int|
                    0 <= j < i ==> flags@[j] == !self.words().contains((#[trigger] tokens@[j])@.text),
            decreases tokens@.len() - i,
        {
            let stop = contains_string(&self.config.words, &tokens[i].text);
            flags.push(!stop);
            i = i + 1;
        }
        proof {
            lemma_flagged_is_filter(
                token_views(tokens@),
                flags@,
                |token: TokenView| !self.words().contains(token.text),
            );
        }
        retain_flagged(tokens, &flags);
        Ok(())
    }
}

} // verus!
