//! The token filter that strips the prolonged sound mark from the end of
//! katakana words.

use vstd::prelude::*;
use vstd::string::{StrSliceExecFns, StringExecFns};

use crate::error::{LinderaErrorKind, LinderaResult};
use crate::json::{json_document, Json};
use crate::text::chars_of;
use crate::token::{token_views, Token, TokenView};

verus! {

pub const JAPANESE_KATAKANA_STEM_TOKEN_FILTER_NAME: &'static str = "japanese_katakana_stem";

/// The prolonged sound mark of katakana.
pub const PROLONGED_SOUND_MARK: char = 'ー';

/// The number of bytes that the prolonged sound mark takes.
pub const PROLONGED_SOUND_MARK_LEN: usize = 3;

/// The length, in scalars, that a word has to exceed to be stemmed.
#[derive(Clone, Copy, Debug, PartialEq, Eq, Structural)]
pub struct JapaneseKatakanaStemTokenFilterConfig {
    pub min: usize,
}

impl JapaneseKatakanaStemTokenFilterConfig {
    pub fn new(min: usize) -> (config: Self)
        ensures
            config.min == min,
    {
        Self { min }
    }

    /// The configuration that the JSON value `value` describes: an object
    /// whose member `min` is an integer within `usize`. Other members are
    /// not looked at.
    pub open spec fn of_json(value: Json) -> Option<Self> {
        match value.count_member("min"@) {
            Some(Some(min)) => Some(JapaneseKatakanaStemTokenFilterConfig { min }),
            _ => None,
        }
    }

    /// The configuration that the JSON document in `data` describes.
    pub open spec fn of_document(data: Seq<u8>) -> Option<Self> {
        match json_document(data) {
            Some(value) => Self::of_json(value),
            None => None,
        }
    }

    /// Reads the configuration from a JSON value. A value that describes
    /// none is an error of the kind `Deserialize`.
    pub fn from_value(value: &Json) -> (config: LinderaResult<Self>)
        ensures
            match Self::of_json(*value) {
                Some(described) => config matches Ok(c) && c == described,
                None => config matches Err(err) && err.kind == LinderaErrorKind::Deserialize,
            },
    {
        match value.get_count("min") {
            Some(Some(min)) => Ok(Self::new(min)),
            _ => Err(
                LinderaErrorKind::Deserialize.with_detail(
                    String::from_str("a katakana stem filter takes `min`, a count"),
                ),
            ),
        }
    }

    /// Reads the configuration from a JSON document. Bytes that hold no
    /// document, or one that describes no configuration, are an error of
    /// the kind `Deserialize`.
    pub fn from_slice(data: &[u8]) -> (config: LinderaResult<Self>)
        ensures
            match Self::of_document(data@) {
                Some(described) => config matches Ok(c) && c == described,
                None => config matches Err(err) && err.kind == LinderaErrorKind::Deserialize,
            },
    {
        match Json::parse(data) {
            Ok(value) => Self::from_value(&value),
            Err(err) => Err(err),
        }
    }
}

/// Whether `c` is of the katakana block of Unicode.
pub open spec fn is_katakana(c: char) -> bool {
    '\u{30A0}' <= c <= '\u{30FF}'
}

/// Whether `text` is a katakana word of more than `min` scalars that ends
/// in the prolonged sound mark.
pub open spec fn has_stem(text: Seq<char>, min: usize) -> bool {
    &&& text.len() > min
    &&& text.last() == PROLONGED_SOUND_MARK
    &&& forall|i: int| 0 <= i < text.len() ==> is_katakana(#[trigger] text[i])
}

/// `token` as the filter leaves it: a katakana word that is long enough
/// without the prolonged sound mark at its end, and ending as many bytes
/// earlier as the mark takes; every other token as it is.
pub open spec fn stemmed(token: TokenView, min: usize) -> TokenView {
    if has_stem(token.text, min) {
        TokenView {
            text: token.text.drop_last(),
            details: token.details,
            byte_start: token.byte_start,
            byte_end: if token.byte_end >= PROLONGED_SOUND_MARK_LEN {
                (token.byte_end - PROLONGED_SOUND_MARK_LEN) as usize
            } else {
                0
            },
        }
    } else {
        token
    }
}

/// The tokens `tokens`, the katakana words among them stemmed.
pub open spec fn all_stemmed(tokens: Seq<TokenView>, min: usize) -> Seq<TokenView> {
    tokens.map_values(|token: TokenView| stemmed(token, min))
}

/// The text `text` without the prolonged sound mark at its end, where it
/// is a katakana word of more than `min` scalars that ends in one.
fn stem_of(text: &str, min: usize) -> (stem: Option<String>)
    ensures
        match stem {
            Some(stem) => has_stem(text@, min) && stem@ == text@.drop_last(),
            None => !has_stem(text@, min),
        },
{
    let chars = chars_of(text);
    let n = chars.len();
    if n <= min || chars[n - 1] != PROLONGED_SOUND_MARK {
        return None;
    }
    let mut i: usize = 0;
    while i < n
        invariant
            i <= n,
            n == chars@.len(),
            chars@ == text@,
            forall|j: int| 0 <= j < i ==> is_katakana(#[trigger] chars@[j]),
        decreases n - i,
    {
        let c = chars[i];
        if !('\u{30A0}' <= c && c <= '\u{30FF}') {
            assert(!is_katakana(text@[i as int]));
            return None;
        }
        i = i + 1;
    }
    Some(String::from_str(text.substring_char(0, n - 1)))
}

/// Strips the prolonged sound mark from the end of katakana words.
#[derive(Clone, Copy, Debug)]
pub struct JapaneseKatakanaStemTokenFilter {
    config: JapaneseKatakanaStemTokenFilterConfig,
}

impl JapaneseKatakanaStemTokenFilter {
    pub fn new(config: JapaneseKatakanaStemTokenFilterConfig) -> (filter: Self)
        ensures
            filter.min() == config.min,
    {
        Self { config }
    }

    /// Reads the filter's configuration from a JSON value. A value that
    /// describes none is an error of the kind `Deserialize`.
    pub fn from_value(value: &Json) -> (filter: LinderaResult<Self>)
        ensures
            match JapaneseKatakanaStemTokenFilterConfig::of_json(*value) {
                Some(described) => filter matches Ok(f) && f.min() == described.min,
                None => filter matches Err(err) && err.kind == LinderaErrorKind::Deserialize,
            },
    {
        match JapaneseKatakanaStemTokenFilterConfig::from_value(value) {
            Ok(config) => Ok(Self::new(config)),
            Err(err) => Err(err),
        }
    }

    /// Reads the filter's configuration from a JSON document. Bytes that
    /// hold no document, or one that describes no configuration, are an
    /// error of the kind `Deserialize`.
    pub fn from_slice(data: &[u8]) -> (filter: LinderaResult<Self>)
        ensures
            match JapaneseKatakanaStemTokenFilterConfig::of_document(data@) {
                Some(described) => filter matches Ok(f) && f.min() == described.min,
                None => filter matches Err(err) && err.kind == LinderaErrorKind::Deserialize,
            },
    {
        match JapaneseKatakanaStemTokenFilterConfig::from_slice(data) {
            Ok(config) => Ok(Self::new(config)),
            Err(err) => Err(err),
        }
    }

    /// The configured length that a word has to exceed.
    pub closed spec fn min(self) -> usize {
        self.config.min
    }

    /// The tokens `tokens` as the filter leaves them.
    pub open spec fn filtered(self, tokens: Seq<TokenView>) -> Seq<TokenView> {
        all_stemmed(tokens, self.min())
    }

    /// The name by which a configuration asks for this filter.
    pub fn name(&self) -> (name: &'static str)
        ensures
            name@ == JAPANESE_KATAKANA_STEM_TOKEN_FILTER_NAME@,
    {
        JAPANESE_KATAKANA_STEM_TOKEN_FILTER_NAME
    }

    /// Strips the prolonged sound mark from the end of every token that
    /// is a katakana word of more than the configured number of scalars,
    /// and lets the token end as many bytes earlier as the mark takes, at
    /// 0 where it ends before that. Every other token stays as it is.
    pub fn apply(&self, tokens: &mut Vec<Token>) -> (done: LinderaResult<()>)
        ensures
            done is Ok,
            token_views(final(tokens)@) == self.filtered(token_views(old(tokens)@)),
    {
        let ghost before = tokens@;
        let mut all: Vec<Token> = Vec::new();
        std::mem::swap(tokens, &mut all);
        let mut i: usize = 0;
        assert(before.len() == all.len());
        for token in it: all
            invariant
                i == it.index(),
                it.seq() == before,
                before.len() <= usize::MAX,
                tokens@.len() == i,
                forall|j: int|
                    0 <= j < i ==> (#[trigger] tokens@[j])@ == stemmed(before[j]@, self.min()),
        {
            match stem_of(token.text.as_str(), self.config.min) {
                Some(text) => {
                    let Token { text: _, details, byte_start, byte_end } = token;
                    let byte_end = if byte_end >= PROLONGED_SOUND_MARK_LEN {
                        byte_end - PROLONGED_SOUND_MARK_LEN
                    } else {
                        0
                    };
                    tokens.push(Token { text, details, byte_start, byte_end });
                },
                None => {
                    tokens.push(token);
                },
            }
            i = i + 1;
        }
        proof {
            assert(token_views(tokens@) =~= self.filtered(token_views(before)));
        }
        Ok(())
    }
}

} // verus!
