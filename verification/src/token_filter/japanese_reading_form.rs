//! The token filter that replaces the text of the tokens by their
//! reading.

use vstd::prelude::*;
use vstd::string::StringExecFns;

use crate::dictionary::{kind_of_name, DictionaryKind};
use crate::error::{LinderaErrorKind, LinderaResult};
use crate::json::{json_document, Json};
use crate::token::{token_views, Token, TokenView};
use crate::token_filter::{detail_at, detail_of, replace_texts, with_text};

verus! {

pub const JAPANESE_READING_FORM_TOKEN_FILTER_NAME: &'static str = "japanese_reading_form";

/// The dictionary whose layout of features the filter goes by.
#[derive(Clone, Copy, Debug, PartialEq, Eq, Structural)]
pub struct JapaneseReadingFormTokenFilterConfig {
    pub kind: DictionaryKind,
}

impl JapaneseReadingFormTokenFilterConfig {
    pub fn new(kind: DictionaryKind) -> (config: Self)
        ensures
            config.kind == kind,
    {
        Self { kind }
    }

    /// The configuration that the JSON value `value` describes: an object
    /// whose member `kind` is the identifier of a kind of dictionary.
    /// Other members are not looked at.
    pub open spec fn of_json(value: Json) -> Option<Self> {
        match value.text_member("kind"@) {
            Some(name) => match kind_of_name(name) {
                Some(kind) => Some(JapaneseReadingFormTokenFilterConfig { kind }),
                None => None,
            },
            None => None,
        }
    }

    /// The configuration that the JSON document in `data` describes.
    pub open spec fn of_document(data: Seq<u8>) -> Option<Self> {
        match json_document(data) {
            Some(value) => Self::of_json(value),
            None => None,
        }
    }

    /// Reads the configuration from a JSON value. A value that describes
    /// none is an error of the kind `Deserialize`.
    pub fn from_value(value: &Json) -> (config: LinderaResult<Self>)
        ensures
            match Self::of_json(*value) {
                Some(described) => config matches Ok(c) && c == described,
                None => config matches Err(err) && err.kind == LinderaErrorKind::Deserialize,
            },
    {
        let kind = match value.get_str("kind") {
            Some(name) => DictionaryKind::from_name(name),
            None => None,
        };
        match kind {
            Some(kind) => Ok(Self::new(kind)),
            None => Err(
                LinderaErrorKind::Deserialize.with_detail(
                    String::from_str("a reading filter takes `kind`, the kind of a dictionary"),
                ),
            ),
        }
    }

    /// Reads the configuration from a JSON document. Bytes that hold no
    /// document, or one that describes no configuration, are an error of
    /// the kind `Deserialize`.
    pub fn from_slice(data: &[u8]) -> (config: LinderaResult<Self>)
        ensures
            match Self::of_document(data@) {
                Some(described) => config matches Ok(c) && c == described,
                None => config matches Err(err) && err.kind == LinderaErrorKind::Deserialize,
            },
    {
        match Json::parse(data) {
            Ok(value) => Self::from_value(&value),
            Err(err) => Err(err),
        }
    }
}

/// The place of the reading among the features that a dictionary of the
/// kind `kind` gives a token, where it gives one.
pub open spec fn reading_index(kind: DictionaryKind) -> Option<usize> {
    match kind {
        DictionaryKind::IPADIC => Some(7usize),
        DictionaryKind::UniDic => Some(6usize),
        _ => None,
    }
}

/// The reading that the features of `token` give, for a dictionary of the
/// kind `kind`: none where the token has no such feature.
pub open spec fn reading(token: TokenView, kind: DictionaryKind) -> Option<Seq<char>> {
    match reading_index(kind) {
        Some(index) => detail_at(token, index as int),
        None => None,
    }
}

/// The tokens `tokens`, each with its reading for text where its features
/// give one.
pub open spec fn all_readings(tokens: Seq<TokenView>, kind: DictionaryKind) -> Seq<TokenView> {
    tokens.map_values(|token: TokenView| with_text(token, reading(token, kind)))
}

/// Replaces the text of the tokens by their reading.
#[derive(Clone, Copy, Debug)]
pub struct JapaneseReadingFormTokenFilter {
    config: JapaneseReadingFormTokenFilterConfig,
}

impl JapaneseReadingFormTokenFilter {
    pub fn new(config: JapaneseReadingFormTokenFilterConfig) -> (filter: Self)
        ensures
            filter.kind() == config.kind,
    {
        Self { config }
    }

    /// Reads the filter's configuration from a JSON value. A value that
    /// describes none is an error of the kind `Deserialize`.
    pub fn from_value(value: &Json) -> (filter: LinderaResult<Self>)
        ensures
            match JapaneseReadingFormTokenFilterConfig::of_json(*value) {
                Some(described) => filter matches Ok(f) && f.kind() == described.kind,
                None => filter matches Err(err) && err.kind == LinderaErrorKind::Deserialize,
            },
    {
        match JapaneseReadingFormTokenFilterConfig::from_value(value) {
            Ok(config) => Ok(Self::new(config)),
            Err(err) => Err(err),
        }
    }

    /// Reads the filter's configuration from a JSON document. Bytes that
    /// hold no document, or one that describes no configuration, are an
    /// error of the kind `Deserialize`.
    pub fn from_slice(data: &[u8]) -> (filter: LinderaResult<Self>)
        ensures
            match JapaneseReadingFormTokenFilterConfig::of_document(data@) {
                Some(described) => filter matches Ok(f) && f.kind() == described.kind,
                None => filter matches Err(err) && err.kind == LinderaErrorKind::Deserialize,
            },
    {
        match JapaneseReadingFormTokenFilterConfig::from_slice(data) {
            Ok(config) => Ok(Self::new(config)),
            Err(err) => Err(err),
        }
    }

    /// The configured kind of dictionary.
    pub closed spec fn kind(self) -> DictionaryKind {
        self.config.kind
    }

    /// The tokens `tokens` as the filter leaves them.
    pub open spec fn filtered(self, tokens: Seq<TokenView>) -> Seq<TokenView> {
        all_readings(tokens, self.kind())
    }

    /// The name by which a configuration asks for this filter.
    pub fn name(&self) -> (name: &'static str)
        ensures
            name@ == JAPANESE_READING_FORM_TOKEN_FILTER_NAME@,
    {
        JAPANESE_READING_FORM_TOKEN_FILTER_NAME
    }

    /// Replaces the text of every token whose features give a reading by
    /// that reading. Positions and features stay, and so does every token
    /// without the feature.
    pub fn apply(&self, tokens: &mut Vec<Token>) -> (done: LinderaResult<()>)
        ensures
            done is Ok,
            token_views(final(tokens)@) == self.filtered(token_views(old(tokens)@)),
    {
        let index: Option<usize> = match self.config.kind {
            DictionaryKind::IPADIC => Some(7),
            DictionaryKind::UniDic => Some(6),
            _ => None,
        };
        let mut texts: Vec<Option<String>> = Vec::new();
        let mut i: usize = 0;
        while i < tokens.len()
            invariant
                i <= tokens@.len(),
                tokens@ == old(tokens)@,
                index == reading_index(self.kind()),
                texts@.len() == i,
                forall|j: int|
                    0 <= j < i ==> match #[trigger] texts@[j] {
                        Some(text) => reading(tokens@[j]@, self.kind()) == Some(text@),
                        None => reading(tokens@[j]@, self.kind()) is None,
                    },
            decreases tokens@.len() - i,
        {
            let found = match index {
                Some(index) => detail_of(&tokens[i], index),
                None => None,
            };
            let text = match found {
                Some(reading) => Some(reading.clone()),
                None => None,
            };
            texts.push(text);
            i = i + 1;
        }
        replace_texts(tokens, texts);
        proof {
            assert(token_views(tokens@) =~= self.filtered(token_views(old(tokens)@)));
        }
        Ok(())
    }
}

} // verus!
