//! The token filter that keeps the tokens of a given length.

use vstd::prelude::*;
use vstd::string::{StrSliceExecFns, StringExecFns};

use crate::error::{LinderaErrorKind, LinderaResult};
use crate::json::{json_document, Json};
use crate::token::{token_views, Token, TokenView};
use crate::token_filter::{lemma_flagged_is_filter, retain_flagged};

verus! {

pub const LENGTH_TOKEN_FILTER_NAME: &'static str = "length";

/// The bounds of the filter, both inclusive. An absent bound does not
/// bound.
#[derive(Clone, Copy, Debug, PartialEq, Eq, Structural)]
pub struct LengthTokenFilterConfig {
    pub min: Option<usize>,
    pub max: Option<usize>,
}

impl LengthTokenFilterConfig {
    pub fn new(min: Option<usize>, max: Option<usize>) -> (config: Self)
        ensures
            config.min == min,
            config.max == max,
    {
        Self { min, max }
    }

    /// The configuration that the JSON value `value` describes: an object
    /// whose members `min` and `max`, where it has them and they are not
    /// null, are integers within `usize`. Other members are not looked at.
    pub open spec fn of_json(value: Json) -> Option<Self> {
        match (value.count_member("min"@), value.count_member("max"@)) {
            (Some(min), Some(max)) => if value is Object {
                Some(LengthTokenFilterConfig { min, max })
            } else {
                None
            },
            _ => None,
        }
    }

    /// The configuration that the JSON document in `data` describes.
    pub open spec fn of_document(data: Seq<u8>) -> Option<Self> {
        match json_document(data) {
            Some(value) => Self::of_json(value),
            None => None,
        }
    }

    /// Reads the configuration from a JSON value. A value that describes
    /// none is an error of the kind `Deserialize`.
    pub fn from_value(value: &Json) -> (config: LinderaResult<Self>)
        ensures
            match Self::of_json(*value) {
                Some(described) => config matches Ok(c) && c == described,
                None => config matches Err(err) && err.kind == LinderaErrorKind::Deserialize,
            },
    {
        if !value.is_object() {
            return Err(
                LinderaErrorKind::Deserialize.with_detail(
                    String::from_str("a length filter is configured by an object"),
                ),
            );
        }
        match (value.get_count("min"), value.get_count("max")) {
            (Some(min), Some(max)) => Ok(Self::new(min, max)),
            _ => Err(
                LinderaErrorKind::Deserialize.with_detail(
                    String::from_str("the bounds `min` and `max` of a length filter are counts"),
                ),
            ),
        }
    }

    /// Reads the configuration from a JSON document. Bytes that hold no
    /// document, or one that describes no configuration, are an error of
    /// the kind `Deserialize`.
    pub fn from_slice(data: &[u8]) -> (config: LinderaResult<Self>)
        ensures
            match Self::of_document(data@) {
                Some(described) => config matches Ok(c) && c == described,
                None => config matches Err(err) && err.kind == LinderaErrorKind::Deserialize,
            },
    {
        match Json::parse(data) {
            Ok(value) => Self::from_value(&value),
            Err(err) => Err(err),
        }
    }

    /// The tokens of `tokens` whose text is within the bounds, in their
    /// order.
    pub open spec fn filtered(self, tokens: Seq<TokenView>) -> Seq<TokenView> {
        tokens.filter(|token: TokenView| self.admits(token.text.len()))
    }

    /// Whether a text of `len` scalars is within the bounds.
    pub open spec fn admits(self, len: nat) -> bool {
        &&& self.min matches Some(min) ==> min <= len
        &&& self.max matches Some(max) ==> len <= max
    }
}

/// Keeps the tokens whose text, counted in Unicode scalars, is within the
/// configured bounds.
#[derive(Clone, Copy, Debug)]
pub struct LengthTokenFilter {
    config: LengthTokenFilterConfig,
}

impl LengthTokenFilter {
    pub fn new(config: LengthTokenFilterConfig) -> (filter: Self)
        ensures
            filter.config() == config,
    {
        Self { config }
    }

    /// Reads the filter's configuration from a JSON value. A value that
    /// describes none is an error of the kind `Deserialize`.
    pub fn from_value(value: &Json) -> (filter: LinderaResult<Self>)
        ensures
            match LengthTokenFilterConfig::of_json(*value) {
                Some(described) => filter matches Ok(f) && f.config() == described,
                None => filter matches Err(err) && err.kind == LinderaErrorKind::Deserialize,
            },
    {
        match LengthTokenFilterConfig::from_value(value) {
            Ok(config) => Ok(Self::new(config)),
            Err(err) => Err(err),
        }
    }

    /// Reads the filter's configuration from a JSON document. Bytes that
    /// hold no document, or one that describes no configuration, are an
    /// error of the kind `Deserialize`.
    pub fn from_slice(data: &[u8]) -> (filter: LinderaResult<Self>)
        ensures
            match LengthTokenFilterConfig::of_document(data@) {
                Some(described) => filter matches Ok(f) && f.config() == described,
                None => filter matches Err(err) && err.kind == LinderaErrorKind::Deserialize,
            },
    {
        match LengthTokenFilterConfig::from_slice(data) {
            Ok(config) => Ok(Self::new(config)),
            Err(err) => Err(err),
        }
    }

    /// The configuration of the filter.
    pub closed spec fn config(self) -> LengthTokenFilterConfig {
        self.config
    }

    /// The tokens of `tokens` that the filter keeps, in their order.
    pub open spec fn filtered(self, tokens: Seq<TokenView>) -> Seq<TokenView> {
        self.config().filtered(tokens)
    }

    /// The name by which a configuration asks for this filter.
    pub fn name(&self) -> (name: &'static str)
        ensures
            name@ == LENGTH_TOKEN_FILTER_NAME@,
    {
        LENGTH_TOKEN_FILTER_NAME
    }

    /// Removes the tokens whose text is shorter than the lower bound or
    /// longer than the upper bound. The others stay, in their order and
    /// unchanged.
    pub fn apply(&self, tokens: &mut Vec<Token>) -> (done: LinderaResult<()>)
        ensures
            done is Ok,
            token_views(final(tokens)@) == self.filtered(token_views(old(tokens)@)),
            forall|i: int|
                0 <= i < final(tokens)@.len() ==> self.config().admits(
                    (#[trigger] final(tokens)@[i]).text@.len(),
                ),
    {
        let mut flags: Vec<bool> = Vec::new();
        let mut i: usize = 0;
        while i < tokens.len()
            invariant
                i <= tokens@.len(),
                tokens@ == old(tokens)@,
                flags@.len() == i,
                forall|j: int|
                    0 <= j < i ==> flags@[j] == self.config().admits(
                        (#[trigger] tokens@[j])@.text.len(),
                    ),
            decreases tokens@.len() - i,
        {
            let len = tokens[i].text.as_str().unicode_len();
            let long_enough = match self.config.min {
                Some(min) => len >= min,
                None => true,
            };
            let short_enough = match self.config.max {
                Some(max) => len <= max,
                None => true,
            };
            flags.push(long_enough && short_enough);
            i = i + 1;
        }
        proof {
            lemma_flagged_is_filter(
                token_views(tokens@),
                flags@,
                |token: TokenView| self.config().admits(token.text.len()),
            );
        }
        retain_flagged(tokens, &flags);
        proof {
            let survivors = token_views(tokens@);
            assert forall|i: int| 0 <= i < tokens@.len() implies self.config().admits(
                (#[trigger] tokens@[i]).text@.len(),
            ) by {
                token_views(old(tokens)@).lemma_filter_pred(
                    |token: TokenView| self.config().admits(token.text.len()),
                    i,
                );
                assert(survivors[i] == tokens@[i]@);
            }
        }
        Ok(())
    }
}

} // verus!
