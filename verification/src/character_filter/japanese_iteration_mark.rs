//! The character filter that writes out Japanese iteration marks.

use vstd::prelude::*;
use vstd::string::StringExecFns;

use crate::character_filter::replacement::{
    check_replacements_fit, map_of_replacements, offsets_of_replacements, replacements_fit,
    successive, Replacement,
};
use crate::character_filter::{is_gentle, is_offset_map, OffsetMap};
use crate::error::{LinderaErrorKind, LinderaResult};
use crate::json::{json_document, Json};
use crate::text::{byte_len, char_byte_len, char_len, chars_of, lemma_byte_len_take};

verus! {

pub const JAPANESE_ITERATION_MARK_CHARACTER_FILTER_NAME: &'static str = "japanese_iteration_mark";

/// The mark that repeats a kanji.
pub const KANJI_ITERATION_MARK: char = '々';

/// The mark that repeats a hiragana, unvoiced.
pub const HIRAGANA_ITERATION_MARK: char = 'ゝ';

/// The mark that repeats a hiragana, voiced.
pub const HIRAGANA_DAKUON_ITERATION_MARK: char = 'ゞ';

/// The mark that repeats a katakana, unvoiced.
pub const KATAKANA_ITERATION_MARK: char = 'ヽ';

/// The mark that repeats a katakana, voiced.
pub const KATAKANA_DAKUON_ITERATION_MARK: char = 'ヾ';

/// Whether `c` is an iteration mark.
pub open spec fn is_iteration_mark(c: char) -> bool {
    ||| c == KANJI_ITERATION_MARK
    ||| c == HIRAGANA_ITERATION_MARK
    ||| c == HIRAGANA_DAKUON_ITERATION_MARK
    ||| c == KATAKANA_ITERATION_MARK
    ||| c == KATAKANA_DAKUON_ITERATION_MARK
}

/// Whether the kana with the value `v`, counted from the start of its
/// block, is unvoiced and has a voiced form, which is the kana after it:
/// those of the rows ka, sa and ta, and of the row ha.
pub open spec fn takes_dakuon(v: int) -> bool {
    ||| 0x0b <= v <= 0x22 && v % 2 == 1
    ||| 0x24 <= v <= 0x29 && v % 2 == 0
    ||| 0x2f <= v <= 0x3d && v % 3 == 2
}

/// Whether the kana with the value `v`, counted from the start of its
/// block, is voiced, so that the kana before it is its unvoiced form.
pub open spec fn has_dakuon(v: int) -> bool {
    ||| 0x0c <= v <= 0x22 && v % 2 == 0
    ||| 0x25 <= v <= 0x29 && v % 2 == 1
    ||| 0x30 <= v <= 0x3d && v % 3 == 0
}

/// The kana `c` of the block that starts at `block`, voiced where it has a
/// voiced form. Every other scalar stays as it is.
pub open spec fn with_dakuon(c: char, block: u32) -> char {
    if takes_dakuon(c as u32 - block) {
        ((c as u32 + 1) as u32) as char
    } else {
        c
    }
}

/// The kana `c` of the block that starts at `block`, unvoiced where it is
/// voiced. Every other scalar stays as it is.
pub open spec fn without_dakuon(c: char, block: u32) -> char {
    if has_dakuon(c as u32 - block) {
        ((c as u32 - 1) as u32) as char
    } else {
        c
    }
}

/// The value at which the hiragana block starts.
pub const HIRAGANA_BLOCK: u32 = 0x3040;

/// The value at which the katakana block starts.
pub const KATAKANA_BLOCK: u32 = 0x30a0;

/// The number of iteration marks that stand in a row directly before the
/// place `p` of `text`.
pub open spec fn marks_before(text: Seq<char>, p: int) -> int
    decreases p,
{
    if p <= 0 || p > text.len() || !is_iteration_mark(text[p - 1]) {
        0
    } else {
        1 + marks_before(text, p - 1)
    }
}

/// The number of iteration marks that stand in a row from the place `p`
/// of `text` on.
pub open spec fn marks_from(text: Seq<char>, p: int) -> int
    decreases text.len() - p,
{
    if p < 0 || p >= text.len() || !is_iteration_mark(text[p]) {
        0
    } else {
        1 + marks_from(text, p + 1)
    }
}

/// The place of the scalar that the iteration mark at the place `p` of
/// `text` repeats. A row of marks repeats as many scalars before it as it
/// has marks, in their order, and no more than stand before it.
pub open spec fn source_index(text: Seq<char>, p: int) -> int {
    let start = p - marks_before(text, p);
    let len = marks_before(text, p) + marks_from(text, p);
    if start < len {
        p - start
    } else {
        p - len
    }
}

/// Which iteration marks the filter writes out.
#[derive(Clone, Copy, Debug, PartialEq, Eq, Structural)]
pub struct JapaneseIterationMarkCharacterFilterConfig {
    pub normalize_kanji: bool,
    pub normalize_kana: bool,
}

/// What stands for the mark `mark` that repeats the scalar `source`: the
/// scalar itself for the kanji mark, voiced or unvoiced as the mark says
/// for the kana marks, and the mark itself where the configuration leaves
/// its kind alone.
pub open spec fn written_out(
    config: JapaneseIterationMarkCharacterFilterConfig,
    mark: char,
    source: char,
) -> char {
    if mark == KANJI_ITERATION_MARK && config.normalize_kanji {
        source
    } else if mark == HIRAGANA_ITERATION_MARK && config.normalize_kana {
        without_dakuon(source, HIRAGANA_BLOCK)
    } else if mark == HIRAGANA_DAKUON_ITERATION_MARK && config.normalize_kana {
        with_dakuon(source, HIRAGANA_BLOCK)
    } else if mark == KATAKANA_ITERATION_MARK && config.normalize_kana {
        without_dakuon(source, KATAKANA_BLOCK)
    } else if mark == KATAKANA_DAKUON_ITERATION_MARK && config.normalize_kana {
        with_dakuon(source, KATAKANA_BLOCK)
    } else {
        mark
    }
}

/// The scalar at the place `p` of the filtered text: what the mark at that
/// place of `text` is written out to, and the scalar of `text` itself
/// where it is no mark.
pub open spec fn expanded_at(
    config: JapaneseIterationMarkCharacterFilterConfig,
    text: Seq<char>,
    p: int,
) -> char {
    if is_iteration_mark(text[p]) {
        written_out(config, text[p], text[source_index(text, p)])
    } else {
        text[p]
    }
}

/// The text `text` with its iteration marks written out.
pub open spec fn expanded(config: JapaneseIterationMarkCharacterFilterConfig, text: Seq<char>) -> Seq<
    char,
> {
    Seq::new(text.len(), |p: int| expanded_at(config, text, p))
}

/// The replacements of the first `k` scalars of `text`, each by the scalar
/// of the filtered text at its place.
pub open spec fn expansions(
    config: JapaneseIterationMarkCharacterFilterConfig,
    text: Seq<char>,
    k: nat,
) -> Seq<Replacement>
    decreases k,
{
    if k == 0 {
        Seq::empty()
    } else {
        expansions(config, text, (k - 1) as nat).push(
            Replacement {
                start: byte_len(text.take(k - 1)) as usize,
                end: byte_len(text.take(k as int)) as usize,
                len: char_len(expanded_at(config, text, k - 1)) as usize,
            },
        )
    }
}

/// What a filter of the configuration `config` makes of `text`: the new
/// text and its offset map. `None` where the text with its replacements
/// does not fit the address space.
pub open spec fn iteration_marks_written_out(
    config: JapaneseIterationMarkCharacterFilterConfig,
    text: Seq<char>,
) -> Option<(Seq<char>, OffsetMap)> {
    let replacements = expansions(config, text, text.len());
    if replacements_fit(replacements, byte_len(text) as int) {
        Some((expanded(config, text), map_of_replacements(replacements)))
    } else {
        None
    }
}

/// Whether `c` is an iteration mark.
fn is_mark(c: char) -> (mark: bool)
    ensures
        mark == is_iteration_mark(c),
{
    c == KANJI_ITERATION_MARK || c == HIRAGANA_ITERATION_MARK || c
        == HIRAGANA_DAKUON_ITERATION_MARK || c == KATAKANA_ITERATION_MARK || c
        == KATAKANA_DAKUON_ITERATION_MARK
}

/// The kana `c` of the block that starts at `block`, voiced where it has a
/// voiced form.
fn add_dakuon(c: char, block: u32) -> (voiced: char)
    requires
        block == HIRAGANA_BLOCK || block == KATAKANA_BLOCK,
    ensures
        voiced == with_dakuon(c, block),
{
    let code = c as u32;
    if code < block {
        return c;
    }
    let v = code - block;
    let takes = (0x0b <= v && v <= 0x22 && v % 2 == 1) || (0x24 <= v && v <= 0x29 && v % 2 == 0)
        || (0x2f <= v && v <= 0x3d && v % 3 == 2);
    if takes {
        match char::from_u32(code + 1) {
            Some(voiced) => {
                proof {
                    vstd::utf8::char_u32_cast(voiced, (code + 1) as u32);
                }
                voiced
            },
            None => c,
        }
    } else {
        c
    }
}

/// The kana `c` of the block that starts at `block`, unvoiced where it is
/// voiced.
fn remove_dakuon(c: char, block: u32) -> (unvoiced: char)
    requires
        block == HIRAGANA_BLOCK || block == KATAKANA_BLOCK,
    ensures
        unvoiced == without_dakuon(c, block),
{
    let code = c as u32;
    if code < block {
        return c;
    }
    let v = code - block;
    let has = (0x0c <= v && v <= 0x22 && v % 2 == 0) || (0x25 <= v && v <= 0x29 && v % 2 == 1) || (
    0x30 <= v && v <= 0x3d && v % 3 == 0);
    if has {
        match char::from_u32(code - 1) {
            Some(unvoiced) => {
                proof {
                    vstd::utf8::char_u32_cast(unvoiced, (code - 1) as u32);
                }
                unvoiced
            },
            None => c,
        }
    } else {
        c
    }
}

impl JapaneseIterationMarkCharacterFilterConfig {
    pub fn new(normalize_kanji: bool, normalize_kana: bool) -> (config: Self)
        ensures
            config.normalize_kanji == normalize_kanji,
            config.normalize_kana == normalize_kana,
    {
        Self { normalize_kanji, normalize_kana }
    }

    /// The configuration that the JSON value `value` describes: an object
    /// whose members `normalize_kanji` and `normalize_kana` are truth
    /// values. Other members are not looked at.
    pub open spec fn of_json(value: Json) -> Option<Self> {
        match (value.bool_member("normalize_kanji"@), value.bool_member("normalize_kana"@)) {
            (Some(normalize_kanji), Some(normalize_kana)) => Some(
                JapaneseIterationMarkCharacterFilterConfig { normalize_kanji, normalize_kana },
            ),
            _ => None,
        }
    }

    /// The configuration that the JSON document in `data` describes.
    pub open spec fn of_document(data: Seq<u8>) -> Option<Self> {
        match json_document(data) {
            Some(value) => Self::of_json(value),
            None => None,
        }
    }

    /// Reads the configuration from a JSON value. A value that describes
    /// none is an error of the kind `Deserialize`.
    pub fn from_value(value: &Json) -> (config: LinderaResult<Self>)
        ensures
            match Self::of_json(*value) {
                Some(described) => config matches Ok(c) && c == described,
                None => config matches Err(err) && err.kind == LinderaErrorKind::Deserialize,
            },
    {
        match (value.get_bool("normalize_kanji"), value.get_bool("normalize_kana")) {
            (Some(normalize_kanji), Some(normalize_kana)) => Ok(
                Self::new(normalize_kanji, normalize_kana),
            ),
            _ => Err(
                LinderaErrorKind::Deserialize.with_detail(
                    String::from_str(
                        "an iteration mark filter takes `normalize_kanji` and `normalize_kana`",
                    ),
                ),
            ),
        }
    }

    /// Reads the configuration from a JSON document. Bytes that hold no
    /// document, or one that describes no configuration, are an error of
    /// the kind `Deserialize`.
    pub fn from_slice(data: &[u8]) -> (config: LinderaResult<Self>)
        ensures
            match Self::of_document(data@) {
                Some(described) => config matches Ok(c) && c == described,
                None => config matches Err(err) && err.kind == LinderaErrorKind::Deserialize,
            },
    {
        match Json::parse(data) {
            Ok(value) => Self::from_value(&value),
            Err(err) => Err(err),
        }
    }

    /// What stands for the mark `mark` that repeats the scalar `source`.
    fn write_out(&self, mark: char, source: char) -> (written: char)
        ensures
            written == written_out(*self, mark, source),
    {
        if mark == KANJI_ITERATION_MARK && self.normalize_kanji {
            source
        } else if mark == HIRAGANA_ITERATION_MARK && self.normalize_kana {
            remove_dakuon(source, HIRAGANA_BLOCK)
        } else if mark == HIRAGANA_DAKUON_ITERATION_MARK && self.normalize_kana {
            add_dakuon(source, HIRAGANA_BLOCK)
        } else if mark == KATAKANA_ITERATION_MARK && self.normalize_kana {
            remove_dakuon(source, KATAKANA_BLOCK)
        } else if mark == KATAKANA_DAKUON_ITERATION_MARK && self.normalize_kana {
            add_dakuon(source, KATAKANA_BLOCK)
        } else {
            mark
        }
    }
}

/// The number of iteration marks that stand in a row from the place `p`
/// of `chars` on.
fn count_marks_from(chars: &Vec<char>, p: usize) -> (count: usize)
    requires
        p <= chars@.len(),
    ensures
        count == marks_from(chars@, p as int),
        p + count <= chars@.len(),
{
    let mut end: usize = p;
    while end < chars.len() && is_mark(chars[end])
        invariant
            p <= end <= chars@.len(),
            marks_from(chars@, p as int) == (end - p) + marks_from(chars@, end as int),
        decreases chars@.len() - end,
    {
        end = end + 1;
    }
    end - p
}

/// Writes out the iteration marks of a text.
#[derive(Clone, Copy, Debug)]
pub struct JapaneseIterationMarkCharacterFilter {
    config: JapaneseIterationMarkCharacterFilterConfig,
}

impl JapaneseIterationMarkCharacterFilter {
    pub fn new(config: JapaneseIterationMarkCharacterFilterConfig) -> (filter: Self)
        ensures
            filter.config() == config,
    {
        Self { config }
    }

    /// Reads the filter's configuration from a JSON value. A value that
    /// describes none is an error of the kind `Deserialize`.
    pub fn from_value(value: &Json) -> (filter: LinderaResult<Self>)
        ensures
            match JapaneseIterationMarkCharacterFilterConfig::of_json(*value) {
                Some(described) => filter matches Ok(f) && f.config() == described,
                None => filter matches Err(err) && err.kind == LinderaErrorKind::Deserialize,
            },
    {
        match JapaneseIterationMarkCharacterFilterConfig::from_value(value) {
            Ok(config) => Ok(Self::new(config)),
            Err(err) => Err(err),
        }
    }

    /// Reads the filter's configuration from a JSON document. Bytes that
    /// hold no document, or one that describes no configuration, are an
    /// error of the kind `Deserialize`.
    pub fn from_slice(data: &[u8]) -> (filter: LinderaResult<Self>)
        ensures
            match JapaneseIterationMarkCharacterFilterConfig::of_document(data@) {
                Some(described) => filter matches Ok(f) && f.config() == described,
                None => filter matches Err(err) && err.kind == LinderaErrorKind::Deserialize,
            },
    {
        match JapaneseIterationMarkCharacterFilterConfig::from_slice(data) {
            Ok(config) => Ok(Self::new(config)),
            Err(err) => Err(err),
        }
    }

    /// The configuration of the filter.
    pub closed spec fn config(self) -> JapaneseIterationMarkCharacterFilterConfig {
        self.config
    }

    /// The name by which a configuration asks for this filter.
    pub fn name(&self) -> (name: &'static str)
        ensures
            name@ == JAPANESE_ITERATION_MARK_CHARACTER_FILTER_NAME@,
    {
        JAPANESE_ITERATION_MARK_CHARACTER_FILTER_NAME
    }

    /// What the filter makes of `text`.
    pub open spec fn filtered(self, text: Seq<char>) -> Option<(Seq<char>, OffsetMap)> {
        iteration_marks_written_out(self.config(), text)
    }

    /// Writes out the iteration marks of `text` that the configuration
    /// names: each stands for the scalar that it repeats, a row of marks
    /// for as many scalars before it as it has marks. Returns the new text
    /// with its offset map, in which every scalar is a replacement.
    ///
    /// A text that with its replacements does not fit the address space
    /// is an error of the kind `Args`.
    pub fn apply(&self, text: &str) -> (filtered: LinderaResult<(String, Vec<usize>, Vec<i64>)>)
        ensures
            match self.filtered(text@) {
                Some((new_text, map)) => filtered matches Ok(out) && out.0@ == new_text && (
                OffsetMap { offsets: out.1@, diffs: out.2@ }) == map,
                None => filtered matches Err(err) && err.kind == LinderaErrorKind::Args,
            },
            filtered matches Ok(out) ==> is_offset_map(out.1@, out.2@) && is_gentle(out.1@, out.2@),
    {
        let config = self.config;
        let chars = chars_of(text);
        let n = chars.len();
        let text_len = text.as_bytes().len();
        let mut new_text = String::new();
        let mut replacements: Vec<Replacement> = Vec::new();
        let mut byte_pos: usize = 0;
        let mut before: usize = 0;
        let mut run_len: usize = 0;
        let mut p: usize = 0;
        proof {
            assert(text@.take(0) =~= Seq::<char>::empty());
            assert(byte_len(Seq::<char>::empty()) == 0) by {
                reveal_with_fuel(vstd::utf8::encode_utf8, 1);
            }
        }
        while p < n
            invariant
                p <= n,
                n == chars@.len(),
                chars@ == text@,
                config == self.config(),
                text_len == byte_len(text@),
                byte_pos == byte_len(text@.take(p as int)),
                byte_pos <= text_len,
                before == marks_before(text@, p as int),
                before <= p,
                before > 0 ==> run_len == before + marks_from(text@, p as int),
                new_text@.len() == p,
                forall|j: int| 0 <= j < p ==> new_text@[j] == expanded_at(config, text@, j),
                replacements@ == expansions(config, text@, p as nat),
                successive(replacements@, text_len as int),
                forall|i: int|
                    0 <= i < replacements@.len() ==> (#[trigger] replacements@[i]).end <= byte_pos,
            decreases n - p,
        {
            let c = chars[p];
            proof {
                lemma_byte_len_take(text@, p as int);
                lemma_byte_len_take(text@, p + 1);
            }
            let written = if is_mark(c) {
                if before == 0 {
                    run_len = count_marks_from(&chars, p);
                }
                let start = p - before;
                let source = if start < run_len {
                    p - start
                } else {
                    p - run_len
                };
                config.write_out(c, chars[source])
            } else {
                c
            };
            let len = char_byte_len(c);
            let replacement = Replacement {
                start: byte_pos,
                end: byte_pos + len,
                len: char_byte_len(written),
            };
            new_text.push(written);
            replacements.push(replacement);
            byte_pos = byte_pos + len;
            if is_mark(c) {
                before = before + 1;
            } else {
                before = 0;
            }
            p = p + 1;
        }
        proof {
            assert(new_text@ =~= expanded(config, text@));
        }
        if !check_replacements_fit(&replacements, text_len) {
            return Err(
                LinderaErrorKind::Args.with_detail(
                    String::from_str("the text with its replacements is too long"),
                ),
            );
        }
        let (offsets, diffs) = offsets_of_replacements(&replacements, text_len);
        Ok((new_text, offsets, diffs))
    }
}

} // verus!
