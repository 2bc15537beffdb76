//! The character filter that replaces every match of a regular expression.

use vstd::prelude::*;
use vstd::string::StringExecFns;

use crate::character_filter::replacement::{
    map_of_replacements, offsets_of_replacements, total_len, Replacement,
};
use crate::character_filter::{is_gentle, is_offset_map, OffsetMap};
use crate::error::{LinderaErrorKind, LinderaResult};
use crate::json::{json_document, Json};
use crate::text::byte_len;

verus! {

pub const REGEX_CHARACTER_FILTER_NAME: &'static str = "regex";

/// A compiled regular expression of the `regex` crate.
#[verifier::external_type_specification]
#[verifier::external_body]
pub struct ExRegex(::regex::Regex);

/// The error of the `regex` crate for a pattern that does not compile.
#[verifier::external_type_specification]
#[verifier::external_body]
pub struct ExRegexError(::regex::Error);

/// Whether `Regex::new` accepts `pattern`.
pub uninterp spec fn regex_compiles(pattern: Seq<char>) -> bool;

/// The pattern that `regex` was compiled from, which `Regex::as_str` returns.
pub uninterp spec fn regex_pattern(regex: ::regex::Regex) -> Seq<char>;

/// The byte spans, start and end, of the matches that `Regex::find_iter`
/// yields for `pattern` in `haystack`, in the order in which it yields them.
pub uninterp spec fn regex_matches(pattern: Seq<char>, haystack: Seq<char>) -> Seq<(usize, usize)>;

/// What `Regex::replace_all` makes of `haystack`, for `pattern` and the
/// replacement string `replacement`.
pub uninterp spec fn regex_replaced(
    pattern: Seq<char>,
    haystack: Seq<char>,
    replacement: Seq<char>,
) -> Seq<char>;

/// Whether `spans` lie in a text of `text_len` bytes one after the other:
/// each starts no later than it ends, ends within the text, and starts no
/// earlier than the one before it ends.
pub open spec fn spans_successive(spans: Seq<(usize, usize)>, text_len: int) -> bool {
    &&& forall|i: int| 0 <= i < spans.len() ==> (#[trigger] spans[i]).0 <= spans[i].1 <= text_len
    &&& forall|i: int, j: int|
        0 <= i < j < spans.len() ==> (#[trigger] spans[i]).1 <= (#[trigger] spans[j]).0
}

/// The replacements of the matches `spans` by a string of
/// `replacement_len` bytes each.
pub open spec fn uniform(spans: Seq<(usize, usize)>, replacement_len: usize) -> Seq<Replacement> {
    Seq::new(
        spans.len(),
        |i: int| Replacement { start: spans[i].0, end: spans[i].1, len: replacement_len },
    )
}

/// The offset map of a text in which each of the matches `spans` was
/// replaced by a string of `replacement_len` bytes.
pub open spec fn map_of_spans(spans: Seq<(usize, usize)>, replacement_len: usize) -> OffsetMap {
    map_of_replacements(uniform(spans, replacement_len))
}

/// Whether a text of `text_len` bytes, with `count` replacements of
/// `replacement_len` bytes each, fits the address space.
pub open spec fn uniform_fit(text_len: int, count: int, replacement_len: int) -> bool {
    text_len + count * replacement_len <= isize::MAX
}

/// Replacements of one length put as many bytes into the output as their
/// number times that length.
proof fn lemma_total_len_uniform(spans: Seq<(usize, usize)>, replacement_len: usize)
    ensures
        total_len(uniform(spans, replacement_len)) == spans.len() * replacement_len,
    decreases spans.len(),
{
    let n = spans.len() as int;
    let r = replacement_len as int;
    if n > 0 {
        lemma_total_len_uniform(spans.drop_last(), replacement_len);
        assert(uniform(spans, replacement_len).drop_last() =~= uniform(
            spans.drop_last(),
            replacement_len,
        ));
        assert(n * r == (n - 1) * r + r) by (nonlinear_arith);
    } else {
        assert(n * r == 0) by (nonlinear_arith)
            requires
                n == 0,
        ;
    }
}

/// Decides `uniform_fit` without overflow.
fn check_uniform_fit(text_len: usize, count: usize, replacement_len: usize) -> (fit: bool)
    ensures
        fit == uniform_fit(text_len as int, count as int, replacement_len as int),
{
    match count.checked_mul(replacement_len) {
        Some(added) => match text_len.checked_add(added) {
            Some(total) => total <= isize::MAX as usize,
            None => false,
        },
        None => false,
    }
}

/// The offset map of a text of `text_len` bytes in which each of the
/// matches `spans` is replaced by a string of `replacement_len` bytes.
///
/// The text with its replacements has to fit the address space.
pub fn offsets_of_spans(spans: &Vec<(usize, usize)>, replacement_len: usize, text_len: usize) -> (map:
    (Vec<usize>, Vec<i64>))
    requires
        spans_successive(spans@, text_len as int),
        uniform_fit(text_len as int, spans@.len() as int, replacement_len as int),
    ensures
        (OffsetMap { offsets: map.0@, diffs: map.1@ }) == map_of_spans(spans@, replacement_len),
        is_offset_map(map.0@, map.1@),
        is_gentle(map.0@, map.1@),
{
    let mut replacements: Vec<Replacement> = Vec::new();
    let mut i: usize = 0;
    while i < spans.len()
        invariant
            i <= spans@.len(),
            replacements@.len() == i,
            forall|j: int|
                0 <= j < i ==> #[trigger] replacements@[j] == (Replacement {
                    start: spans@[j].0,
                    end: spans@[j].1,
                    len: replacement_len,
                }),
        decreases spans@.len() - i,
    {
        let span = spans[i];
        replacements.push(Replacement { start: span.0, end: span.1, len: replacement_len });
        i = i + 1;
    }
    proof {
        assert(replacements@ =~= uniform(spans@, replacement_len));
        lemma_total_len_uniform(spans@, replacement_len);
    }
    offsets_of_replacements(&replacements, text_len)
}

/// `Regex::new`: compiles `pattern`. Trusted: it succeeds on exactly the
/// patterns that `regex_compiles` names, and the compiled expression
/// remembers the pattern it was made from.
#[verifier::external_body]
fn compile(pattern: &str) -> (compiled: Result<::regex::Regex, ::regex::Error>)
    ensures
        compiled is Ok <==> regex_compiles(pattern@),
        compiled matches Ok(regex) ==> regex_pattern(regex) == pattern@,
{
    ::regex::Regex::new(pattern)
}

/// `Clone` for `Regex`. Trusted: the copy is compiled from the same pattern.
#[verifier::external_body]
fn clone_compiled(compiled: &::regex::Regex) -> (copy: ::regex::Regex)
    ensures
        regex_pattern(copy) == regex_pattern(*compiled),
{
    compiled.clone()
}

/// The text that the `regex` crate prints for `err`. Trusted, with nothing
/// claimed of the text.
#[verifier::external_body]
fn compile_error_detail(err: &::regex::Error) -> String {
    format!("{}", err)
}

/// `Regex::find_iter`: the byte spans of the successive matches of `regex`
/// in `haystack`. Trusted: they are the spans that `regex_matches` names,
/// and, as the crate documents, they do not overlap, come in the order of
/// the text, and lie within it.
#[verifier::external_body]
fn find_spans(regex: &::regex::Regex, haystack: &str) -> (spans: Vec<(usize, usize)>)
    ensures
        spans@ == regex_matches(regex_pattern(*regex), haystack@),
        spans_successive(spans@, byte_len(haystack@) as int),
{
    regex.find_iter(haystack).map(|m| (m.start(), m.end())).collect()
}

/// `Regex::replace_all`: `haystack` with every match of `regex` replaced by
/// `replacement`, in which `$` refers to capture groups. Trusted: the result
/// is the text that `regex_replaced` names.
#[verifier::external_body]
fn replace_matches(regex: &::regex::Regex, haystack: &str, replacement: &str) -> (text: String)
    ensures
        text@ == regex_replaced(regex_pattern(*regex), haystack@, replacement@),
{
    regex.replace_all(haystack, replacement).into_owned()
}

/// What the filter is configured with: the pattern to look for and the
/// string that replaces each match.
#[derive(Debug, PartialEq, Eq)]
pub struct RegexCharacterFilterConfig {
    pub pattern: String,
    pub replacement: String,
}

impl Clone for RegexCharacterFilterConfig {
    fn clone(&self) -> (copy: Self)
        ensures
            copy.pattern@ == self.pattern@,
            copy.replacement@ == self.replacement@,
    {
        Self { pattern: self.pattern.clone(), replacement: self.replacement.clone() }
    }
}

/// What a configuration holds, as mathematical values.
pub struct RegexCharacterFilterConfigView {
    pub pattern: Seq<char>,
    pub replacement: Seq<char>,
}

impl View for RegexCharacterFilterConfig {
    type V = RegexCharacterFilterConfigView;

    open spec fn view(&self) -> RegexCharacterFilterConfigView {
        RegexCharacterFilterConfigView { pattern: self.pattern@, replacement: self.replacement@ }
    }
}

impl RegexCharacterFilterConfigView {
    /// What a filter of this configuration makes of `text`: the new text
    /// and its offset map, which takes every replacement at the length of
    /// the configured replacement string. `None` where the text, with its
    /// replacements taken so, does not fit the address space.
    pub open spec fn filtered(self, text: Seq<char>) -> Option<(Seq<char>, OffsetMap)> {
        let spans = regex_matches(self.pattern, text);
        let replacement_len = byte_len(self.replacement);
        if uniform_fit(byte_len(text) as int, spans.len() as int, replacement_len as int) {
            Some(
                (
                    regex_replaced(self.pattern, text, self.replacement),
                    map_of_spans(spans, replacement_len as usize),
                ),
            )
        } else {
            None
        }
    }
}

impl RegexCharacterFilterConfig {
    pub fn new(pattern: String, replacement: String) -> (config: Self)
        ensures
            config.pattern@ == pattern@,
            config.replacement@ == replacement@,
    {
        Self { pattern, replacement }
    }

    /// The configuration that the JSON value `value` describes: an object
    /// whose members `pattern` and `replacement` are strings. Other members
    /// are not looked at.
    pub open spec fn of_json(value: Json) -> Option<RegexCharacterFilterConfigView> {
        match (value.text_member("pattern"@), value.text_member("replacement"@)) {
            (Some(pattern), Some(replacement)) => Some(
                RegexCharacterFilterConfigView { pattern, replacement },
            ),
            _ => None,
        }
    }

    /// The configuration that the JSON document in `data` describes.
    pub open spec fn of_document(data: Seq<u8>) -> Option<RegexCharacterFilterConfigView> {
        match json_document(data) {
            Some(value) => Self::of_json(value),
            None => None,
        }
    }

    /// Reads the configuration from a JSON value. A value that describes
    /// none is an error of the kind `Deserialize`.
    pub fn from_value(value: &Json) -> (config: LinderaResult<Self>)
        ensures
            match Self::of_json(*value) {
                Some(view) => config matches Ok(c) && c@ == view,
                None => config matches Err(err) && err.kind == LinderaErrorKind::Deserialize,
            },
    {
        match (value.get_str("pattern"), value.get_str("replacement")) {
            (Some(pattern), Some(replacement)) => Ok(
                Self::new(String::from_str(pattern), String::from_str(replacement)),
            ),
            _ => Err(
                LinderaErrorKind::Deserialize.with_detail(
                    String::from_str("a regex filter takes the strings `pattern` and `replacement`"),
                ),
            ),
        }
    }

    /// Reads the configuration from a JSON document. Bytes that hold no
    /// document, or one that describes no configuration, are an error of
    /// the kind `Deserialize`.
    pub fn from_slice(data: &[u8]) -> (config: LinderaResult<Self>)
        ensures
            match Self::of_document(data@) {
                Some(view) => config matches Ok(c) && c@ == view,
                None => config matches Err(err) && err.kind == LinderaErrorKind::Deserialize,
            },
    {
        match Json::parse(data) {
            Ok(value) => Self::from_value(&value),
            Err(err) => Err(err),
        }
    }
}

/// Replaces every match of a pattern by a fixed string.
#[derive(Debug)]
pub struct RegexCharacterFilter {
    config: RegexCharacterFilterConfig,
    regex: ::regex::Regex,
}

impl View for RegexCharacterFilter {
    type V = RegexCharacterFilterConfigView;

    /// The configuration of the filter.
    closed spec fn view(&self) -> RegexCharacterFilterConfigView {
        self.config@
    }
}

impl Clone for RegexCharacterFilter {
    fn clone(&self) -> (copy: Self)
        ensures
            copy@ == self@,
    {
        proof {
            use_type_invariant(self);
        }
        Self { config: self.config.clone(), regex: clone_compiled(&self.regex) }
    }
}

impl RegexCharacterFilter {
    /// The compiled expression is that of the configured pattern.
    #[verifier::type_invariant]
    spec fn compiled_from_config(self) -> bool {
        regex_pattern(self.regex) == self.config.pattern@
    }

    /// The configured pattern.
    pub open spec fn pattern(self) -> Seq<char> {
        self@.pattern
    }

    /// The configured replacement.
    pub open spec fn replacement(self) -> Seq<char> {
        self@.replacement
    }

    /// Compiles the configured pattern. A pattern that does not compile is
    /// an error of the kind `Args`.
    pub fn new(config: RegexCharacterFilterConfig) -> (filter: LinderaResult<Self>)
        ensures
            filter is Ok <==> regex_compiles(config.pattern@),
            filter matches Ok(f) ==> f@ == config@,
            filter matches Err(err) ==> err.kind == LinderaErrorKind::Args,
    {
        match compile(config.pattern.as_str()) {
            Ok(regex) => Ok(Self { config, regex }),
            Err(err) => Err(LinderaErrorKind::Args.with_detail(compile_error_detail(&err))),
        }
    }

    /// Reads the configuration from a JSON value and compiles its pattern.
    /// A value that describes no configuration is an error of the kind
    /// `Deserialize`; a pattern that does not compile is one of the kind
    /// `Args`.
    pub fn from_value(value: &Json) -> (filter: LinderaResult<Self>)
        ensures
            match RegexCharacterFilterConfig::of_json(*value) {
                Some(view) => {
                    &&& filter is Ok <==> regex_compiles(view.pattern)
                    &&& filter matches Ok(f) ==> f@ == view
                    &&& filter matches Err(err) ==> err.kind == LinderaErrorKind::Args
                },
                None => filter matches Err(err) && err.kind == LinderaErrorKind::Deserialize,
            },
    {
        match RegexCharacterFilterConfig::from_value(value) {
            Ok(config) => Self::new(config),
            Err(err) => Err(err),
        }
    }

    /// Reads the configuration from a JSON document and compiles its
    /// pattern. Bytes that hold no document, or one that describes no
    /// configuration, are an error of the kind `Deserialize`; a pattern
    /// that does not compile is one of the kind `Args`.
    pub fn from_slice(data: &[u8]) -> (filter: LinderaResult<Self>)
        ensures
            match RegexCharacterFilterConfig::of_document(data@) {
                Some(view) => {
                    &&& filter is Ok <==> regex_compiles(view.pattern)
                    &&& filter matches Ok(f) ==> f@ == view
                    &&& filter matches Err(err) ==> err.kind == LinderaErrorKind::Args
                },
                None => filter matches Err(err) && err.kind == LinderaErrorKind::Deserialize,
            },
    {
        match RegexCharacterFilterConfig::from_slice(data) {
            Ok(config) => Self::new(config),
            Err(err) => Err(err),
        }
    }

    /// The name by which a configuration asks for this filter.
    pub fn name(&self) -> (name: &'static str)
        ensures
            name@ == REGEX_CHARACTER_FILTER_NAME@,
    {
        REGEX_CHARACTER_FILTER_NAME
    }

    /// What the filter makes of `text`.
    pub open spec fn filtered(self, text: Seq<char>) -> Option<(Seq<char>, OffsetMap)> {
        self@.filtered(text)
    }

    /// Replaces every match of the pattern in `text` by the replacement, and
    /// returns the new text with its offset map.
    ///
    /// The map takes every replacement at the length of the configured
    /// replacement string. A text that, with its replacements taken so,
    /// does not fit the address space is an error of the kind `Args`.
    pub fn apply(&self, text: &str) -> (filtered: LinderaResult<(String, Vec<usize>, Vec<i64>)>)
        ensures
            match self.filtered(text@) {
                Some((new_text, map)) => filtered matches Ok(out) && out.0@ == new_text && (
                OffsetMap { offsets: out.1@, diffs: out.2@ }) == map,
                None => filtered matches Err(err) && err.kind == LinderaErrorKind::Args,
            },
            filtered matches Ok(out) ==> is_offset_map(out.1@, out.2@) && is_gentle(out.1@, out.2@),
    {
        proof {
            use_type_invariant(self);
        }
        let spans = find_spans(&self.regex, text);
        let text_len = text.as_bytes().len();
        let replacement_len = self.config.replacement.as_str().as_bytes().len();
        if !check_uniform_fit(text_len, spans.len(), replacement_len) {
            return Err(
                LinderaErrorKind::Args.with_detail(
                    String::from_str("the text with its replacements is too long"),
                ),
            );
        }
        let (offsets, diffs) = offsets_of_spans(&spans, replacement_len, text_len);
        let new_text = replace_matches(&self.regex, text, self.config.replacement.as_str());
        Ok((new_text, offsets, diffs))
    }
}

} // verus!
