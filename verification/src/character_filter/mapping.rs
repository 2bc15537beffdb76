//! The character filter that replaces the strings of a table by others.

use vstd::prelude::*;
use vstd::string::StringExecFns;

use crate::character_filter::replacement::{
    check_replacements_fit, map_of_replacements, offsets_of_replacements, replacements_fit,
    successive, Replacement,
};
use crate::character_filter::{is_gentle, is_offset_map, OffsetMap};
use crate::error::{LinderaErrorKind, LinderaResult};
use crate::json::{json_document, Json, Member};
use crate::text::{byte_len, char_byte_len, chars_of, lemma_byte_len_take};

verus! {

pub const MAPPING_CHARACTER_FILTER_NAME: &'static str = "mapping";

/// An entry of the table: the string to look for and the string that takes
/// its place.
#[derive(Debug, PartialEq, Eq)]
pub struct Mapping {
    pub from: String,
    pub to: String,
}

/// What an entry holds, as mathematical values.
pub struct MappingView {
    pub from: Seq<char>,
    pub to: Seq<char>,
}

impl View for Mapping {
    type V = MappingView;

    open spec fn view(&self) -> MappingView {
        MappingView { from: self.from@, to: self.to@ }
    }
}

impl Clone for Mapping {
    fn clone(&self) -> (copy: Self)
        ensures
            copy@ == self@,
    {
        Self { from: self.from.clone(), to: self.to.clone() }
    }
}

/// The entries `entries`, each as its view.
pub open spec fn mapping_views(entries: Seq<Mapping>) -> Seq<MappingView> {
    Seq::new(entries.len(), |i: int| entries[i]@)
}

/// Whether `text` starts with `key`.
pub open spec fn starts_with(text: Seq<char>, key: Seq<char>) -> bool {
    key.len() <= text.len() && text.take(key.len() as int) == key
}

/// The entry to apply at the start of `text`, among the first `n` of
/// `table`: the one with the longest string that `text` starts with, empty
/// strings left aside; of entries with the same string, the first.
pub open spec fn best_among(table: Seq<MappingView>, text: Seq<char>, n: nat) -> Option<int>
    decreases n,
{
    if n == 0 {
        None
    } else {
        let k = n - 1;
        let before = best_among(table, text, k as nat);
        if k < table.len() && table[k].from.len() > 0 && starts_with(text, table[k].from) && (
        before matches Some(b) ==> table[b].from.len() < table[k].from.len()) {
            Some(k)
        } else {
            before
        }
    }
}

/// The entry of `table` to apply at the start of `text`, if there is one.
pub open spec fn best_mapping(table: Seq<MappingView>, text: Seq<char>) -> Option<int> {
    best_among(table, text, table.len())
}

/// The number of scalars at the start of `text` that one step deals with:
/// those of the string of the entry that applies, and one where none
/// applies.
pub open spec fn step_len(table: Seq<MappingView>, text: Seq<char>) -> int {
    match best_mapping(table, text) {
        Some(k) => {
            let len = table[k].from.len();
            if 1 <= len <= text.len() {
                len as int
            } else {
                1
            }
        },
        None => 1,
    }
}

/// The text `text` with the strings of `table` replaced, from left to
/// right, at each place the longest one that stands there.
pub open spec fn mapped_text(table: Seq<MappingView>, text: Seq<char>) -> Seq<char>
    decreases text.len(),
{
    if text.len() == 0 {
        Seq::empty()
    } else {
        let rest = mapped_text(table, text.skip(step_len(table, text)));
        match best_mapping(table, text) {
            Some(k) => table[k].to + rest,
            None => seq![text[0]] + rest,
        }
    }
}

/// The replacements that `mapped_text` makes in `text`, which starts at
/// the byte `start` of the whole text.
pub open spec fn mapped_replacements(table: Seq<MappingView>, text: Seq<char>, start: int) -> Seq<
    Replacement,
>
    decreases text.len(),
{
    if text.len() == 0 {
        Seq::empty()
    } else {
        let step = step_len(table, text);
        let end = start + byte_len(text.take(step));
        let rest = mapped_replacements(table, text.skip(step), end);
        match best_mapping(table, text) {
            Some(k) => seq![
                Replacement {
                    start: start as usize,
                    end: end as usize,
                    len: byte_len(table[k].to) as usize,
                },
            ] + rest,
            None => rest,
        }
    }
}

/// What a filter with the table `table` makes of `text`: the new text and
/// its offset map. `None` where the text with its replacements does not
/// fit the address space.
pub open spec fn mapped(table: Seq<MappingView>, text: Seq<char>) -> Option<
    (Seq<char>, OffsetMap),
> {
    let replacements = mapped_replacements(table, text, 0);
    if replacements_fit(replacements, byte_len(text) as int) {
        Some((mapped_text(table, text), map_of_replacements(replacements)))
    } else {
        None
    }
}

/// The strings of the members `members`, which are all strings, by their
/// names.
pub open spec fn pairs_of(members: Seq<Member>) -> Seq<MappingView> {
    Seq::new(
        members.len(),
        |i: int| MappingView { from: members[i].name@, to: members[i].value->Text_0@ },
    )
}

/// Whether every one of `members` is a string.
pub open spec fn all_text_members(members: Seq<Member>) -> bool {
    forall|i: int| 0 <= i < members.len() ==> (#[trigger] members[i]).value is Text
}

/// The table to replace by.
#[derive(Debug, PartialEq, Eq)]
pub struct MappingCharacterFilterConfig {
    pub mapping: Vec<Mapping>,
}

impl Clone for MappingCharacterFilterConfig {
    fn clone(&self) -> (copy: Self)
        ensures
            mapping_views(copy.mapping@) == mapping_views(self.mapping@),
    {
        let mut mapping: Vec<Mapping> = Vec::new();
        let mut i: usize = 0;
        while i < self.mapping.len()
            invariant
                i <= self.mapping@.len(),
                mapping@.len() == i,
                forall|j: int| 0 <= j < i ==> (#[trigger] mapping@[j])@ == self.mapping@[j]@,
            decreases self.mapping@.len() - i,
        {
            mapping.push(self.mapping[i].clone());
            i = i + 1;
        }
        proof {
            assert(mapping_views(mapping@) =~= mapping_views(self.mapping@));
        }
        Self { mapping }
    }
}

impl MappingCharacterFilterConfig {
    pub fn new(mapping: Vec<Mapping>) -> (config: Self)
        ensures
            config.mapping@ == mapping@,
    {
        Self { mapping }
    }

    /// The table of the configuration that the JSON value `value`
    /// describes: an object whose member `mapping` is an object of
    /// strings, each member the string that takes the place of the string
    /// that names it. Other members are not looked at.
    pub open spec fn of_json(value: Json) -> Option<Seq<MappingView>> {
        match value.member("mapping"@) {
            Some(Json::Object(members)) => if all_text_members(members@) {
                Some(pairs_of(members@))
            } else {
                None
            },
            _ => None,
        }
    }

    /// The table of the configuration that the JSON document in `data`
    /// describes.
    pub open spec fn of_document(data: Seq<u8>) -> Option<Seq<MappingView>> {
        match json_document(data) {
            Some(value) => Self::of_json(value),
            None => None,
        }
    }

    /// Reads the configuration from a JSON value. A value that describes
    /// none is an error of the kind `Deserialize`.
    pub fn from_value(value: &Json) -> (config: LinderaResult<Self>)
        ensures
            match Self::of_json(*value) {
                Some(table) => config matches Ok(c) && mapping_views(c.mapping@) == table,
                None => config matches Err(err) && err.kind == LinderaErrorKind::Deserialize,
            },
    {
        let members = match value.get("mapping") {
            Some(Json::Object(members)) => members,
            _ => {
                return Err(Self::wrong_schema());
            },
        };
        let mut mapping: Vec<Mapping> = Vec::new();
        let mut i: usize = 0;
        while i < members.len()
            invariant
                i <= members@.len(),
                mapping@.len() == i,
                Self::of_json(*value) == if all_text_members(members@) {
                    Some(pairs_of(members@))
                } else {
                    None
                },
                forall|j: int| 0 <= j < i ==> (#[trigger] members@[j]).value is Text,
                forall|j: int| 0 <= j < i ==> (#[trigger] mapping@[j])@ == pairs_of(members@)[j],
            decreases members@.len() - i,
        {
            match &members[i].value {
                Json::Text(to) => {
                    mapping.push(
                        Mapping {
                            from: String::from_str(members[i].name.as_str()),
                            to: String::from_str(to.as_str()),
                        },
                    );
                },
                _ => {
                    assert(!(members@[i as int].value is Text));
                    return Err(Self::wrong_schema());
                },
            }
            i = i + 1;
        }
        proof {
            assert(mapping_views(mapping@) =~= pairs_of(members@));
        }
        Ok(Self::new(mapping))
    }

    /// The error for a value that describes no configuration.
    fn wrong_schema() -> (err: crate::error::LinderaError)
        ensures
            err.kind == LinderaErrorKind::Deserialize,
    {
        LinderaErrorKind::Deserialize.with_detail(
            String::from_str("a mapping filter takes `mapping`, an object of strings"),
        )
    }

    /// Reads the configuration from a JSON document. Bytes that hold no
    /// document, or one that describes no configuration, are an error of
    /// the kind `Deserialize`.
    pub fn from_slice(data: &[u8]) -> (config: LinderaResult<Self>)
        ensures
            match Self::of_document(data@) {
                Some(table) => config matches Ok(c) && mapping_views(c.mapping@) == table,
                None => config matches Err(err) && err.kind == LinderaErrorKind::Deserialize,
            },
    {
        match Json::parse(data) {
            Ok(value) => Self::from_value(&value),
            Err(err) => Err(err),
        }
    }
}

/// Whether the scalars `key` stand in `chars` from the place `pos` on.
fn matches_at(chars: &Vec<char>, pos: usize, key: &Vec<char>) -> (found: bool)
    requires
        pos <= chars@.len(),
    ensures
        found == starts_with(chars@.skip(pos as int), key@),
{
    let ghost rest = chars@.skip(pos as int);
    if key.len() > chars.len() - pos {
        return false;
    }
    assert(chars@.len() <= usize::MAX);
    let mut i: usize = 0;
    while i < key.len()
        invariant
            i <= key@.len(),
            pos + key@.len() <= chars@.len(),
            chars@.len() <= usize::MAX,
            rest == chars@.skip(pos as int),
            forall|j: int| 0 <= j < i ==> key@[j] == rest[j],
        decreases key@.len() - i,
    {
        if chars[pos + i] != key[i] {
            assert(rest.take(key@.len() as int)[i as int] != key@[i as int]);
            return false;
        }
        i = i + 1;
    }
    assert(rest.take(key@.len() as int) =~= key@);
    true
}

/// Replaces the strings of a table, at each place the longest one that
/// stands there.
#[derive(Debug)]
pub struct MappingCharacterFilter {
    config: MappingCharacterFilterConfig,
    keys: Vec<Vec<char>>,
    key_lens: Vec<usize>,
    value_lens: Vec<usize>,
}

impl View for MappingCharacterFilter {
    type V = Seq<MappingView>;

    /// The table of the filter.
    closed spec fn view(&self) -> Seq<MappingView> {
        mapping_views(self.config.mapping@)
    }
}

impl Clone for MappingCharacterFilter {
    fn clone(&self) -> (copy: Self)
        ensures
            copy@ == self@,
    {
        Self::new(self.config.clone())
    }
}

impl MappingCharacterFilter {
    /// The scalars and the lengths in bytes of the strings of the table are
    /// worked out once, when the filter is made.
    #[verifier::type_invariant]
    spec fn lengths_are_known(self) -> bool {
        &&& self.keys@.len() == self.config.mapping@.len()
        &&& self.key_lens@.len() == self.config.mapping@.len()
        &&& self.value_lens@.len() == self.config.mapping@.len()
        &&& forall|k: int|
            0 <= k < self.config.mapping@.len() ==> {
                &&& (#[trigger] self.keys@[k])@ == self.config.mapping@[k].from@
                &&& self.key_lens@[k] == byte_len(self.config.mapping@[k].from@)
                &&& self.value_lens@[k] == byte_len(self.config.mapping@[k].to@)
            }
    }

    pub fn new(config: MappingCharacterFilterConfig) -> (filter: Self)
        ensures
            filter@ == mapping_views(config.mapping@),
    {
        let mut keys: Vec<Vec<char>> = Vec::new();
        let mut key_lens: Vec<usize> = Vec::new();
        let mut value_lens: Vec<usize> = Vec::new();
        let mut k: usize = 0;
        while k < config.mapping.len()
            invariant
                k <= config.mapping@.len(),
                keys@.len() == k,
                key_lens@.len() == k,
                value_lens@.len() == k,
                forall|j: int|
                    0 <= j < k ==> {
                        &&& (#[trigger] keys@[j])@ == config.mapping@[j].from@
                        &&& key_lens@[j] == byte_len(config.mapping@[j].from@)
                        &&& value_lens@[j] == byte_len(config.mapping@[j].to@)
                    },
            decreases config.mapping@.len() - k,
        {
            let entry = &config.mapping[k];
            keys.push(chars_of(entry.from.as_str()));
            key_lens.push(entry.from.as_str().as_bytes().len());
            value_lens.push(entry.to.as_str().as_bytes().len());
            k = k + 1;
        }
        Self { config, keys, key_lens, value_lens }
    }

    /// Reads the filter's configuration from a JSON value. A value that
    /// describes none is an error of the kind `Deserialize`.
    pub fn from_value(value: &Json) -> (filter: LinderaResult<Self>)
        ensures
            match MappingCharacterFilterConfig::of_json(*value) {
                Some(table) => filter matches Ok(f) && f@ == table,
                None => filter matches Err(err) && err.kind == LinderaErrorKind::Deserialize,
            },
    {
        match MappingCharacterFilterConfig::from_value(value) {
            Ok(config) => Ok(Self::new(config)),
            Err(err) => Err(err),
        }
    }

    /// Reads the filter's configuration from a JSON document. Bytes that
    /// hold no document, or one that describes no configuration, are an
    /// error of the kind `Deserialize`.
    pub fn from_slice(data: &[u8]) -> (filter: LinderaResult<Self>)
        ensures
            match MappingCharacterFilterConfig::of_document(data@) {
                Some(table) => filter matches Ok(f) && f@ == table,
                None => filter matches Err(err) && err.kind == LinderaErrorKind::Deserialize,
            },
    {
        match MappingCharacterFilterConfig::from_slice(data) {
            Ok(config) => Ok(Self::new(config)),
            Err(err) => Err(err),
        }
    }

    /// The name by which a configuration asks for this filter.
    pub fn name(&self) -> (name: &'static str)
        ensures
            name@ == MAPPING_CHARACTER_FILTER_NAME@,
    {
        MAPPING_CHARACTER_FILTER_NAME
    }

    /// What the filter makes of `text`.
    pub open spec fn filtered(self, text: Seq<char>) -> Option<(Seq<char>, OffsetMap)> {
        mapped(self@, text)
    }

    /// The entry to apply where `chars` stands at the place `pos`.
    fn best_at(&self, chars: &Vec<char>, pos: usize) -> (best: Option<usize>)
        requires
            pos <= chars@.len(),
        ensures
            match best {
                Some(k) => {
                    &&& best_mapping(self@, chars@.skip(pos as int)) == Some(k as int)
                    &&& k < self@.len()
                    &&& 1 <= self@[k as int].from.len()
                    &&& starts_with(chars@.skip(pos as int), self@[k as int].from)
                },
                None => best_mapping(self@, chars@.skip(pos as int)) is None,
            },
    {
        proof {
            use_type_invariant(self);
        }
        let ghost table = self@;
        let ghost rest = chars@.skip(pos as int);
        let mut best: Option<usize> = None;
        let mut k: usize = 0;
        while k < self.keys.len()
            invariant
                k <= self.keys@.len(),
                pos <= chars@.len(),
                table == self@,
                rest == chars@.skip(pos as int),
                self.keys@.len() == table.len(),
                forall|j: int|
                    0 <= j < table.len() ==> (#[trigger] self.keys@[j])@ == table[j].from,
                match best {
                    Some(b) => {
                        &&& best_among(table, rest, k as nat) == Some(b as int)
                        &&& b < k
                        &&& 1 <= table[b as int].from.len()
                        &&& starts_with(rest, table[b as int].from)
                    },
                    None => best_among(table, rest, k as nat) is None,
                },
            decreases self.keys@.len() - k,
        {
            let key = &self.keys[k];
            let longer = match best {
                Some(b) => self.keys[b].len() < key.len(),
                None => true,
            };
            if key.len() > 0 && longer && matches_at(chars, pos, key) {
                best = Some(k);
            }
            k = k + 1;
        }
        best
    }

    /// Replaces the strings of the table in `text`, from left to right, at
    /// each place the longest one that stands there, and returns the new
    /// text with its offset map.
    ///
    /// A text that with its replacements does not fit the address space
    /// is an error of the kind `Args`.
    pub fn apply(&self, text: &str) -> (filtered: LinderaResult<(String, Vec<usize>, Vec<i64>)>)
        ensures
            match self.filtered(text@) {
                Some((new_text, map)) => filtered matches Ok(out) && out.0@ == new_text && (
                OffsetMap { offsets: out.1@, diffs: out.2@ }) == map,
                None => filtered matches Err(err) && err.kind == LinderaErrorKind::Args,
            },
            filtered matches Ok(out) ==> is_offset_map(out.1@, out.2@) && is_gentle(out.1@, out.2@),
    {
        proof {
            use_type_invariant(self);
        }
        let ghost table = self@;
        let chars = chars_of(text);
        let n = chars.len();
        let text_len = text.as_bytes().len();
        let mut new_text = String::new();
        let mut replacements: Vec<Replacement> = Vec::new();
        let mut pos: usize = 0;
        let mut byte_pos: usize = 0;
        proof {
            assert(text@.skip(0) =~= text@);
            assert(text@.take(0) =~= Seq::<char>::empty());
            assert(byte_len(Seq::<char>::empty()) == 0) by {
                reveal_with_fuel(vstd::utf8::encode_utf8, 1);
            }
            lemma_byte_len_take(text@, 0);
        }
        while pos < n
            invariant
                pos <= n,
                n == chars@.len(),
                chars@ == text@,
                table == self@,
                text_len == byte_len(text@),
                self.lengths_are_known(),
                byte_pos == byte_len(text@.take(pos as int)),
                byte_pos <= text_len,
                mapped_text(table, text@) == new_text@ + mapped_text(table, text@.skip(pos as int)),
                mapped_replacements(table, text@, 0) == replacements@ + mapped_replacements(
                    table,
                    text@.skip(pos as int),
                    byte_pos as int,
                ),
                successive(replacements@, text_len as int),
                forall|i: int|
                    0 <= i < replacements@.len() ==> (#[trigger] replacements@[i]).end <= byte_pos,
            decreases n - pos,
        {
            let ghost rest = text@.skip(pos as int);
            let ghost written = new_text@;
            let ghost made = replacements@;
            match self.best_at(&chars, pos) {
                Some(k) => {
                    let ghost step = table[k as int].from.len() as int;
                    proof {
                        assert(self.keys@[k as int]@ == self.config.mapping@[k as int].from@);
                        assert(table[k as int] == self.config.mapping@[k as int]@);
                        assert(step_len(table, rest) == step);
                        assert(rest.skip(step) =~= text@.skip(pos + step));
                        assert(rest.take(step) == table[k as int].from);
                        assert(text@.take(pos + step) =~= text@.take(pos as int) + rest.take(step));
                        crate::text::lemma_byte_len_add(text@.take(pos as int), rest.take(step));
                        lemma_byte_len_take(text@, pos + step);
                    }
                    let key_len = self.key_lens[k];
                    let replacement = Replacement {
                        start: byte_pos,
                        end: byte_pos + key_len,
                        len: self.value_lens[k],
                    };
                    new_text.append(self.config.mapping[k].to.as_str());
                    replacements.push(replacement);
                    pos = pos + self.keys[k].len();
                    byte_pos = byte_pos + key_len;
                    proof {
                        assert(new_text@ + mapped_text(table, text@.skip(pos as int)) =~= written + (
                        table[k as int].to + mapped_text(table, rest.skip(step))));
                        assert(replacements@ + mapped_replacements(
                            table,
                            text@.skip(pos as int),
                            byte_pos as int,
                        ) =~= made + (seq![replacement] + mapped_replacements(
                            table,
                            rest.skip(step),
                            byte_pos as int,
                        )));
                    }
                },
                None => {
                    let c = chars[pos];
                    proof {
                        assert(step_len(table, rest) == 1);
                        assert(rest.skip(1) =~= text@.skip(pos + 1));
                        assert(rest[0] == c);
                        assert(rest.take(1) =~= seq![c]);
                        assert(text@.take(pos + 1) =~= text@.take(pos as int) + rest.take(1));
                        crate::text::lemma_byte_len_add(text@.take(pos as int), rest.take(1));
                        lemma_byte_len_take(text@, pos as int);
                        lemma_byte_len_take(text@, pos + 1);
                    }
                    new_text.push(c);
                    pos = pos + 1;
                    byte_pos = byte_pos + char_byte_len(c);
                    proof {
                        assert(new_text@ + mapped_text(table, text@.skip(pos as int)) =~= written + (
                        seq![c] + mapped_text(table, rest.skip(1))));
                    }
                },
            }
        }
        proof {
            assert(text@.skip(pos as int) =~= Seq::<char>::empty());
            assert(new_text@ + Seq::<char>::empty() =~= new_text@);
            assert(replacements@ + Seq::<Replacement>::empty() =~= replacements@);
        }
        if !check_replacements_fit(&replacements, text_len) {
            return Err(
                LinderaErrorKind::Args.with_detail(
                    String::from_str("the text with its replacements is too long"),
                ),
            );
        }
        let (offsets, diffs) = offsets_of_replacements(&replacements, text_len);
        Ok((new_text, offsets, diffs))
    }
}

} // verus!
