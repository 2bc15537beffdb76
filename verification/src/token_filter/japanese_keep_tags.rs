//! The token filter that keeps the tokens of given part-of-speech tags.

use vstd::prelude::*;
use vstd::string::StringExecFns;

use crate::error::{LinderaErrorKind, LinderaResult};
use crate::json::{json_document, Json};
use crate::token::{string_views, token_views, Token, TokenView};
use crate::token_filter::{
    clone_strings, distinct, distinct_strings, has_pos_tag, kept_by_pos, lemma_flagged_is_filter,
    pad_tags, padded_tags, retain_flagged, token_has_pos_tag,
};

verus! {

pub const JAPANESE_KEEP_TAGS_TOKEN_FILTER_NAME: &'static str = "japanese_keep_tags";

/// The part-of-speech tags to keep: a set, held as a list without
/// repetition.
#[derive(Debug, PartialEq, Eq)]
pub struct JapaneseKeepTagsTokenFilterConfig {
    pub tags: Vec<String>,
}

impl Clone for JapaneseKeepTagsTokenFilterConfig {
    fn clone(&self) -> (copy: Self)
        ensures
            string_views(copy.tags@) == string_views(self.tags@),
    {
        Self { tags: clone_strings(&self.tags) }
    }
}

impl JapaneseKeepTagsTokenFilterConfig {
    /// The configuration with the tags of `tags`, each as a tag of four
    /// fields and once, in the order in which they first occur. A tag of
    /// fewer fields stands for the tag whose other fields hold an
    /// asterisk.
    pub fn new(tags: Vec<String>) -> (config: Self)
        ensures
            string_views(config.tags@) == distinct(padded_tags(string_views(tags@))),
            string_views(config.tags@).no_duplicates(),
    {
        Self { tags: distinct_strings(pad_tags(tags)) }
    }

    /// The tags of the configuration that the JSON value `value`
    /// describes: an object whose member `tags` is an array of strings,
    /// each a tag of one to four fields. Other members are not looked at.
    pub open spec fn of_json(value: Json) -> Option<Seq<Seq<char>>> {
        match value.texts_member("tags"@) {
            Some(tags) => Some(distinct(padded_tags(tags))),
            None => None,
        }
    }

    /// The tags of the configuration that the JSON document in `data`
    /// describes.
    pub open spec fn of_document(data: Seq<u8>) -> Option<Seq<Seq<char>>> {
        match json_document(data) {
            Some(value) => Self::of_json(value),
            None => None,
        }
    }

    /// Reads the configuration from a JSON value. A value that describes
    /// none is an error of the kind `Deserialize`.
    pub fn from_value(value: &Json) -> (config: LinderaResult<Self>)
        ensures
            match Self::of_json(*value) {
                Some(tags) => config matches Ok(c) && string_views(c.tags@) == tags,
                None => config matches Err(err) && err.kind == LinderaErrorKind::Deserialize,
            },
    {
        match value.get_strings("tags") {
            Some(tags) => Ok(Self::new(tags)),
            None => Err(
                LinderaErrorKind::Deserialize.with_detail(
                    String::from_str("a tag filter takes `tags`, an array of strings"),
                ),
            ),
        }
    }

    /// Reads the configuration from a JSON document. Bytes that hold no
    /// document, or one that describes no configuration, are an error of
    /// the kind `Deserialize`.
    pub fn from_slice(data: &[u8]) -> (config: LinderaResult<Self>)
        ensures
            match Self::of_document(data@) {
                Some(tags) => config matches Ok(c) && string_views(c.tags@) == tags,
                None => config matches Err(err) && err.kind == LinderaErrorKind::Deserialize,
            },
    {
        match Json::parse(data) {
            Ok(value) => Self::from_value(&value),
            Err(err) => Err(err),
        }
    }
}

/// Keeps the tokens whose part-of-speech tag, the first four of their
/// features joined by commas, is one of the configured tags. Tokens
/// without features are removed.
#[derive(Debug)]
pub struct JapaneseKeepTagsTokenFilter {
    config: JapaneseKeepTagsTokenFilterConfig,
}

impl Clone for JapaneseKeepTagsTokenFilter {
    fn clone(&self) -> (copy: Self)
        ensures
            copy.tags() == self.tags(),
    {
        Self { config: self.config.clone() }
    }
}

impl JapaneseKeepTagsTokenFilter {
    pub fn new(config: JapaneseKeepTagsTokenFilterConfig) -> (filter: Self)
        ensures
            filter.tags() == string_views(config.tags@),
    {
        Self { config }
    }

    /// Reads the filter's configuration from a JSON value. A value that
    /// describes none is an error of the kind `Deserialize`.
    pub fn from_value(value: &Json) -> (filter: LinderaResult<Self>)
        ensures
            match JapaneseKeepTagsTokenFilterConfig::of_json(*value) {
                Some(tags) => filter matches Ok(f) && f.tags() == tags,
                None => filter matches Err(err) && err.kind == LinderaErrorKind::Deserialize,
            },
    {
        match JapaneseKeepTagsTokenFilterConfig::from_value(value) {
            Ok(config) => Ok(Self::new(config)),
            Err(err) => Err(err),
        }
    }

    /// Reads the filter's configuration from a JSON document. Bytes that
    /// hold no document, or one that describes no configuration, are an
    /// error of the kind `Deserialize`.
    pub fn from_slice(data: &[u8]) -> (filter: LinderaResult<Self>)
        ensures
            match JapaneseKeepTagsTokenFilterConfig::of_document(data@) {
                Some(tags) => filter matches Ok(f) && f.tags() == tags,
                None => filter matches Err(err) && err.kind == LinderaErrorKind::Deserialize,
            },
    {
        match JapaneseKeepTagsTokenFilterConfig::from_slice(data) {
            Ok(config) => Ok(Self::new(config)),
            Err(err) => Err(err),
        }
    }

    /// The configured tags.
    pub closed spec fn tags(self) -> Seq<Seq<char>> {
        string_views(self.config.tags@)
    }

    /// The name by which a configuration asks for this filter.
    pub fn name(&self) -> (name: &'static str)
        ensures
            name@ == JAPANESE_KEEP_TAGS_TOKEN_FILTER_NAME@,
    {
        JAPANESE_KEEP_TAGS_TOKEN_FILTER_NAME
    }

    /// Removes the tokens that have no features or whose part-of-speech
    /// tag is none of the configured tags. The others stay, in their order
    /// and unchanged.
    pub fn apply(&self, tokens: &mut Vec<Token>) -> (done: LinderaResult<()>)
        ensures
            done is Ok,
            token_views(final(tokens)@) == kept_by_pos(token_views(old(tokens)@), self.tags()),
    {
        let mut flags: Vec<bool> = Vec::new();
        let mut i: usize = 0;
        while i < tokens.len()
            invariant
                i <= tokens@.len(),
                tokens@ == old(tokens)@,
                flags@.len() == i,
                forall|j: int|
                    0 <= j < i ==> flags@[j] == has_pos_tag((#[trigger] tokens@[j])@, self.tags()),
            decreases tokens@.len() - i,
        {
            let keep = token_has_pos_tag(&tokens[i], &self.config.tags);
            flags.push(keep);
            i = i + 1;
        }
        proof {
            lemma_flagged_is_filter(
                token_views(tokens@),
                flags@,
                |token: TokenView| has_pos_tag(token, self.tags()),
            );
        }
        retain_flagged(tokens, &flags);
        Ok(())
    }
}

} // verus!
