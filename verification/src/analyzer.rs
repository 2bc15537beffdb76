//! The analyzer: character filters, segmentation and token filters in a
//! row, with the positions of the tokens led back to the text as it was
//! given.

use vstd::prelude::*;
use vstd::string::StringExecFns;

use crate::character_filter::{
    character_filter_of_kind, correct_offset, corrected_offset, is_character_filter_kind,
    is_gentle, is_offset_map, lemma_correct_offset_monotonic, unknown_character_filter,
    CharacterFilter, CharacterFilterView, OffsetMap,
};
use crate::error::{LinderaError, LinderaErrorKind, LinderaResult};
use crate::json::{json_document, Json};
use crate::text::byte_len;
use crate::token::{token_views, Token, TokenView};
use crate::token_filter::{
    is_token_filter_kind, name_reads_details, reads_details, token_filter_of_kind,
    unknown_token_filter, TokenFilter, TokenFilterView,
};

verus! {

/// The offset map of one character filter, with the length in bytes of
/// the text that the filter returned.
pub struct OffsetMapEntry {
    pub offsets: Vec<usize>,
    pub diffs: Vec<i64>,
    pub text_len: usize,
}

/// What an entry holds, as mathematical values.
pub struct OffsetMapEntryView {
    pub map: OffsetMap,
    pub text_len: usize,
}

impl View for OffsetMapEntry {
    type V = OffsetMapEntryView;

    open spec fn view(&self) -> OffsetMapEntryView {
        OffsetMapEntryView {
            map: OffsetMap { offsets: self.offsets@, diffs: self.diffs@ },
            text_len: self.text_len,
        }
    }
}

/// The position in the text as it was given that the position `pos` of
/// the filtered text came from: `pos` led back through every map of
/// `maps`, the first one first.
pub open spec fn unwound(pos: usize, maps: Seq<OffsetMapEntryView>) -> usize
    decreases maps.len(),
{
    if maps.len() == 0 {
        pos
    } else {
        unwound(corrected_offset(pos, maps[0].map.offsets, maps[0].map.diffs), maps.drop_first())
    }
}

/// Whether every entry of `maps` is an offset map in which no event lowers
/// the cumulative difference by more than one.
pub open spec fn all_gentle(maps: Seq<OffsetMapEntryView>) -> bool {
    forall|i: int|
        0 <= i < maps.len() ==> is_offset_map((#[trigger] maps[i]).map.offsets, maps[i].map.diffs)
            && is_gentle(maps[i].map.offsets, maps[i].map.diffs)
}

/// Led back through the maps of character filters, the later of two
/// positions stays the later one.
pub proof fn lemma_unwound_monotonic(p: usize, q: usize, maps: Seq<OffsetMapEntryView>)
    requires
        all_gentle(maps),
        p <= q,
    ensures
        unwound(p, maps) <= unwound(q, maps),
    decreases maps.len(),
{
    if maps.len() > 0 {
        let first = maps[0];
        lemma_correct_offset_monotonic(p, q, first.map.offsets, first.map.diffs);
        let rest = maps.drop_first();
        assert forall|i: int| 0 <= i < rest.len() implies is_offset_map(
            (#[trigger] rest[i]).map.offsets,
            rest[i].map.diffs,
        ) && is_gentle(rest[i].map.offsets, rest[i].map.diffs) by {
            assert(rest[i] == maps[i + 1]);
        }
        lemma_unwound_monotonic(
            corrected_offset(p, first.map.offsets, first.map.diffs),
            corrected_offset(q, first.map.offsets, first.map.diffs),
            rest,
        );
    }
}

/// The offset maps of the character filters that changed the length of a
/// text, that of the filter applied last first.
pub struct OffsetStack {
    entries: Vec<OffsetMapEntry>,
}

impl View for OffsetStack {
    type V = Seq<OffsetMapEntryView>;

    closed spec fn view(&self) -> Seq<OffsetMapEntryView> {
        Seq::new(self.entries@.len(), |i: int| self.entries@[i]@)
    }
}

impl OffsetStack {
    /// Every entry is an offset map in which no event lowers the
    /// cumulative difference by more than one.
    #[verifier::type_invariant]
    spec fn maps_are_gentle(self) -> bool {
        all_gentle(self@)
    }

    /// The stack without entries.
    pub fn new() -> (stack: Self)
        ensures
            stack@ == Seq::<OffsetMapEntryView>::empty(),
    {
        let stack = Self { entries: Vec::new() };
        assert(stack@ =~= Seq::<OffsetMapEntryView>::empty());
        stack
    }

    /// The number of entries.
    pub fn len(&self) -> (len: usize)
        ensures
            len == self@.len(),
    {
        self.entries.len()
    }

    /// The stack with the map of the filter applied last in front of the
    /// others.
    pub fn with_front(self, entry: OffsetMapEntry) -> (stack: Self)
        requires
            is_offset_map(entry.offsets@, entry.diffs@),
            is_gentle(entry.offsets@, entry.diffs@),
        ensures
            stack@ == seq![entry@] + self@,
    {
        proof {
            use_type_invariant(&self);
        }
        let ghost before = self@;
        let ghost first = entry@;
        let mut entries = self.entries;
        entries.insert(0, entry);
        let ghost after = Seq::new(entries@.len(), |i: int| entries@[i]@);
        proof {
            assert(after =~= seq![first] + before);
            assert forall|i: int| 0 <= i < after.len() implies is_offset_map(
                (#[trigger] after[i]).map.offsets,
                after[i].map.diffs,
            ) && is_gentle(after[i].map.offsets, after[i].map.diffs) by {
                if i > 0 {
                    assert(after[i] == before[i - 1]);
                }
            }
        }
        Self { entries }
    }

    /// Leads the position `pos` of the filtered text back to the text as
    /// it was given.
    pub fn correct(&self, pos: usize) -> (source: usize)
        ensures
            source == unwound(pos, self@),
    {
        proof {
            use_type_invariant(self);
        }
        let mut current = pos;
        let mut i: usize = 0;
        proof {
            assert(self@.skip(0) =~= self@);
        }
        while i < self.entries.len()
            invariant
                i <= self.entries@.len(),
                self@.len() == self.entries@.len(),
                all_gentle(self@),
                forall|j: int| 0 <= j < self.entries@.len() ==> self@[j] == self.entries@[j]@,
                unwound(pos, self@) == unwound(current, self@.skip(i as int)),
            decreases self.entries@.len() - i,
        {
            let entry = &self.entries[i];
            proof {
                let rest = self@.skip(i as int);
                assert(rest[0] == self@[i as int]);
                assert(rest.drop_first() =~= self@.skip(i + 1));
                assert(is_offset_map(self@[i as int].map.offsets, self@[i as int].map.diffs));
            }
            current =
            correct_offset(
                current,
                entry.offsets.as_slice(),
                entry.diffs.as_slice(),
                entry.text_len,
            );
            i = i + 1;
        }
        current
    }

    /// Leads both ends of a span of the filtered text back to the text as
    /// it was given. A span that is not inverted stays so.
    pub fn correct_span(&self, start: usize, end: usize) -> (source: (usize, usize))
        ensures
            source.0 == unwound(start, self@),
            source.1 == unwound(end, self@),
            start <= end ==> source.0 <= source.1,
    {
        proof {
            use_type_invariant(self);
            if start <= end {
                lemma_unwound_monotonic(start, end, self@);
            }
        }
        (self.correct(start), self.correct(end))
    }
}

/// What is stated of an error: its kind, and its detail where the analyzer
/// words it itself.
pub struct Failure {
    pub kind: LinderaErrorKind,
    pub detail: Option<Seq<char>>,
}

/// Whether `err` is of the kind of `failure` and has its detail, where
/// that is stated.
pub open spec fn fails_as(err: LinderaError, failure: Failure) -> bool {
    &&& err.kind == failure.kind
    &&& failure.detail matches Some(detail) ==> err.detail@ == detail
}

/// What reading one entry of a list of filters comes to: an entry without
/// a kind is passed over, and every other is either read or fails.
pub enum Entry<T> {
    Skipped,
    Read(T),
    Failed(Failure),
}

/// The detail of the error for an entry of the kind `kind` in the list of
/// `what` filters that has no object of arguments.
pub open spec fn missing_arguments(what: Seq<char>, kind: Seq<char>) -> Seq<char> {
    what + " filter's arguments for "@ + kind + "."@
}

/// The detail of the error for a configuration without the description of
/// a segmenter.
pub open spec fn missing_tokenizer() -> Seq<char> {
    "missing tokenizer config."@
}

/// The arguments of the entry `item`: its member `args`, where that is an
/// object.
pub open spec fn arguments_of(item: Json) -> Option<Json> {
    match item.member("args"@) {
        Some(args) => if args is Object {
            Some(args)
        } else {
            None
        },
        None => None,
    }
}

/// What reading the entry `item` of the list of character filters comes
/// to. An entry whose member `kind` is no string is passed over. One
/// without an object of arguments fails, as does one whose kind or
/// arguments do.
pub open spec fn character_filter_entry(item: Json) -> Entry<CharacterFilterView> {
    match item.text_member("kind"@) {
        None => Entry::Skipped,
        Some(kind) => match arguments_of(item) {
            None => Entry::Failed(
                Failure {
                    kind: LinderaErrorKind::Deserialize,
                    detail: Some(missing_arguments("character"@, kind)),
                },
            ),
            Some(args) => match character_filter_of_kind(kind, args) {
                Ok(filter) => Entry::Read(filter),
                Err(error_kind) => Entry::Failed(
                    Failure {
                        kind: error_kind,
                        detail: if is_character_filter_kind(kind) {
                            None
                        } else {
                            Some(unknown_character_filter(kind))
                        },
                    },
                ),
            },
        },
    }
}

/// What reading the entry `item` of the list of token filters comes to.
pub open spec fn token_filter_entry(item: Json) -> Entry<TokenFilterView> {
    match item.text_member("kind"@) {
        None => Entry::Skipped,
        Some(kind) => match arguments_of(item) {
            None => Entry::Failed(
                Failure {
                    kind: LinderaErrorKind::Deserialize,
                    detail: Some(missing_arguments("token"@, kind)),
                },
            ),
            Some(args) => match token_filter_of_kind(kind, args) {
                Ok(filter) => Entry::Read(filter),
                Err(error_kind) => Entry::Failed(
                    Failure {
                        kind: error_kind,
                        detail: if is_token_filter_kind(kind) {
                            None
                        } else {
                            Some(unknown_token_filter(kind))
                        },
                    },
                ),
            },
        },
    }
}

/// The character filters that the entries `items` describe, in their
/// order, or the error of the first entry that fails.
pub open spec fn character_filters_of(items: Seq<Json>) -> Result<Seq<CharacterFilterView>, Failure>
    decreases items.len(),
{
    if items.len() == 0 {
        Ok(Seq::empty())
    } else {
        match character_filters_of(items.drop_last()) {
            Err(failure) => Err(failure),
            Ok(filters) => match character_filter_entry(items.last()) {
                Entry::Skipped => Ok(filters),
                Entry::Read(filter) => Ok(filters.push(filter)),
                Entry::Failed(failure) => Err(failure),
            },
        }
    }
}

/// The token filters that the entries `items` describe, in their order, or
/// the error of the first entry that fails.
pub open spec fn token_filters_of(items: Seq<Json>) -> Result<Seq<TokenFilterView>, Failure>
    decreases items.len(),
{
    if items.len() == 0 {
        Ok(Seq::empty())
    } else {
        match token_filters_of(items.drop_last()) {
            Err(failure) => Err(failure),
            Ok(filters) => match token_filter_entry(items.last()) {
                Entry::Skipped => Ok(filters),
                Entry::Read(filter) => Ok(filters.push(filter)),
                Entry::Failed(failure) => Err(failure),
            },
        }
    }
}

/// The entries of the member `name` of `value`, where that is an array,
/// and no entries where it is not.
pub open spec fn entries_of(value: Json, name: Seq<char>) -> Seq<Json> {
    match value.member(name) {
        Some(Json::Array(items)) => items@,
        _ => Seq::empty(),
    }
}

/// What an analyzer is made of, as mathematical values.
pub struct AnalyzerView {
    pub character_filters: Seq<CharacterFilterView>,
    pub token_filters: Seq<TokenFilterView>,
}

impl AnalyzerView {
    /// Whether segmentation has to supply the features of the tokens:
    /// whether one of the token filters reads them.
    pub open spec fn with_details(self) -> bool {
        exists|i: int|
            0 <= i < self.token_filters.len() && reads_details(
                (#[trigger] self.token_filters[i]).name(),
            )
    }
}

/// The analyzer that the configuration `value` describes, or the error
/// that reading it meets. The character filters are read first, then the
/// member `tokenizer`, which has to be an object, then the token filters;
/// the first error ends the reading.
pub open spec fn analyzer_of(value: Json) -> Result<AnalyzerView, Failure> {
    match character_filters_of(entries_of(value, "character_filters"@)) {
        Err(failure) => Err(failure),
        Ok(character_filters) => if !(value.member("tokenizer"@) matches Some(tokenizer)
            && tokenizer is Object) {
            Err(Failure { kind: LinderaErrorKind::Deserialize, detail: Some(missing_tokenizer()) })
        } else {
            match token_filters_of(entries_of(value, "token_filters"@)) {
                Err(failure) => Err(failure),
                Ok(token_filters) => Ok(AnalyzerView { character_filters, token_filters }),
            }
        },
    }
}

/// The analyzer that the JSON document in `data` describes.
pub open spec fn analyzer_of_document(data: Seq<u8>) -> Result<AnalyzerView, Failure> {
    match json_document(data) {
        Some(value) => analyzer_of(value),
        None => Err(Failure { kind: LinderaErrorKind::Deserialize, detail: None }),
    }
}

/// The character filters `filters`, each as its view.
pub open spec fn character_filter_views(filters: Seq<CharacterFilter>) -> Seq<CharacterFilterView> {
    Seq::new(filters.len(), |i: int| filters[i]@)
}

/// The token filters `filters`, each as its view.
pub open spec fn token_filter_views(filters: Seq<TokenFilter>) -> Seq<TokenFilterView> {
    Seq::new(filters.len(), |i: int| filters[i]@)
}

/// The arguments of the entry `item`, or the error for an entry of the
/// kind `kind` that has no object of arguments. `what` says in the error
/// which list the entry is of.
fn arguments<'a>(item: &'a Json, what: &str, kind: &str) -> (args: LinderaResult<&'a Json>)
    ensures
        match arguments_of(*item) {
            Some(found) => args matches Ok(a) && *a == found,
            None => args matches Err(err) && err.kind == LinderaErrorKind::Deserialize
                && err.detail@ == missing_arguments(what@, kind@),
        },
{
    let found = match item.get("args") {
        Some(args) => if args.is_object() {
            Some(args)
        } else {
            None
        },
        None => None,
    };
    match found {
        Some(args) => Ok(args),
        None => {
            let mut detail = String::from_str(what);
            detail.append(" filter's arguments for ");
            detail.append(kind);
            detail.append(".");
            Err(LinderaErrorKind::Deserialize.with_detail(detail))
        },
    }
}

/// Reads the character filters that the entries `items` describe.
fn read_character_filters(items: &Vec<Json>) -> (filters: LinderaResult<Vec<CharacterFilter>>)
    ensures
        match character_filters_of(items@) {
            Ok(views) => filters matches Ok(fs) && character_filter_views(fs@) == views,
            Err(failure) => filters matches Err(err) && fails_as(err, failure),
        },
{
    let mut filters: Vec<CharacterFilter> = Vec::new();
    let mut i: usize = 0;
    proof {
        assert(items@.take(0) =~= Seq::empty());
        assert(character_filter_views(filters@) =~= Seq::empty());
    }
    while i < items.len()
        invariant
            i <= items@.len(),
            character_filters_of(items@.take(i as int)) == Ok::<Seq<CharacterFilterView>, Failure>(
                character_filter_views(filters@),
            ),
        decreases items@.len() - i,
    {
        let item = &items[i];
        let ghost before = character_filter_views(filters@);
        proof {
            assert(items@.take(i + 1).drop_last() =~= items@.take(i as int));
            assert(items@.take(i + 1).last() == *item);
        }
        match item.get_str("kind") {
            None => {},
            Some(kind) => {
                let read = match arguments(item, "character", kind) {
                    Ok(args) => CharacterFilter::from_kind(kind, args),
                    Err(err) => Err(err),
                };
                match read {
                    Ok(filter) => {
                        filters.push(filter);
                        proof {
                            assert(character_filter_views(filters@) =~= before.push(filter@));
                        }
                    },
                    Err(err) => {
                        proof {
                            lemma_character_filters_fail(items@, i + 1);
                        }
                        return Err(err);
                    },
                }
            },
        }
        i = i + 1;
    }
    proof {
        assert(items@.take(i as int) =~= items@);
    }
    Ok(filters)
}

/// Reads the token filters that the entries `items` describe.
fn read_token_filters(items: &Vec<Json>) -> (filters: LinderaResult<Vec<TokenFilter>>)
    ensures
        match token_filters_of(items@) {
            Ok(views) => filters matches Ok(fs) && token_filter_views(fs@) == views,
            Err(failure) => filters matches Err(err) && fails_as(err, failure),
        },
{
    let mut filters: Vec<TokenFilter> = Vec::new();
    let mut i: usize = 0;
    proof {
        assert(items@.take(0) =~= Seq::empty());
        assert(token_filter_views(filters@) =~= Seq::empty());
    }
    while i < items.len()
        invariant
            i <= items@.len(),
            token_filters_of(items@.take(i as int)) == Ok::<Seq<TokenFilterView>, Failure>(
                token_filter_views(filters@),
            ),
        decreases items@.len() - i,
    {
        let item = &items[i];
        let ghost before = token_filter_views(filters@);
        proof {
            assert(items@.take(i + 1).drop_last() =~= items@.take(i as int));
            assert(items@.take(i + 1).last() == *item);
        }
        match item.get_str("kind") {
            None => {},
            Some(kind) => {
                let read = match arguments(item, "token", kind) {
                    Ok(args) => TokenFilter::from_kind(kind, args),
                    Err(err) => Err(err),
                };
                match read {
                    Ok(filter) => {
                        filters.push(filter);
                        proof {
                            assert(token_filter_views(filters@) =~= before.push(filter@));
                        }
                    },
                    Err(err) => {
                        proof {
                            lemma_token_filters_fail(items@, i + 1);
                        }
                        return Err(err);
                    },
                }
            },
        }
        i = i + 1;
    }
    proof {
        assert(items@.take(i as int) =~= items@);
    }
    Ok(filters)
}

/// An error among the first entries is the error of the whole list.
proof fn lemma_character_filters_fail(items: Seq<Json>, k: int)
    requires
        0 <= k <= items.len(),
        character_filters_of(items.take(k)) is Err,
    ensures
        character_filters_of(items) == character_filters_of(items.take(k)),
    decreases items.len() - k,
{
    if k < items.len() {
        assert(items.take(k + 1).drop_last() =~= items.take(k));
        lemma_character_filters_fail(items, k + 1);
    } else {
        assert(items.take(k) =~= items);
    }
}

/// An error among the first entries is the error of the whole list.
proof fn lemma_token_filters_fail(items: Seq<Json>, k: int)
    requires
        0 <= k <= items.len(),
        token_filters_of(items.take(k)) is Err,
    ensures
        token_filters_of(items) == token_filters_of(items.take(k)),
    decreases items.len() - k,
{
    if k < items.len() {
        assert(items.take(k + 1).drop_last() =~= items.take(k));
        lemma_token_filters_fail(items, k + 1);
    } else {
        assert(items.take(k) =~= items);
    }
}

/// A text after the character filters, as mathematical values: the text
/// and the offset maps of the filters that changed its length, that of
/// the filter applied last first.
pub struct NormalizedView {
    pub text: Seq<char>,
    pub maps: Seq<OffsetMapEntryView>,
}

/// The text `text` after the character filters `filters`, applied in their
/// order, or the kind of the error of the first filter that fails. The
/// map of a filter is kept where it has events.
pub open spec fn character_filtered(filters: Seq<CharacterFilterView>, text: Seq<char>) -> Result<
    NormalizedView,
    LinderaErrorKind,
>
    decreases filters.len(),
{
    if filters.len() == 0 {
        Ok(NormalizedView { text, maps: Seq::empty() })
    } else {
        match character_filtered(filters.drop_last(), text) {
            Err(error_kind) => Err(error_kind),
            Ok(before) => match filters.last().filtered(before.text) {
                Err(error_kind) => Err(error_kind),
                Ok((new_text, map)) => Ok(
                    NormalizedView {
                        text: new_text,
                        maps: if map.offsets.len() > 0 {
                            seq![OffsetMapEntryView { map, text_len: byte_len(new_text) as usize }]
                                + before.maps
                        } else {
                            before.maps
                        },
                    },
                ),
            },
        }
    }
}

/// The tokens `tokens` after the token filters `filters`, applied in their
/// order.
pub open spec fn all_filtered(filters: Seq<TokenFilterView>, tokens: Seq<TokenView>) -> Seq<
    TokenView,
>
    decreases filters.len(),
{
    if filters.len() == 0 {
        tokens
    } else {
        filters.last().filtered(all_filtered(filters.drop_last(), tokens))
    }
}

/// The token `token` with its positions led back through `maps`.
pub open spec fn relocated(token: TokenView, maps: Seq<OffsetMapEntryView>) -> TokenView {
    TokenView {
        text: token.text,
        details: token.details,
        byte_start: unwound(token.byte_start, maps),
        byte_end: unwound(token.byte_end, maps),
    }
}

/// The tokens `tokens` with their positions led back through `maps`.
pub open spec fn all_relocated(tokens: Seq<TokenView>, maps: Seq<OffsetMapEntryView>) -> Seq<
    TokenView,
> {
    tokens.map_values(|token: TokenView| relocated(token, maps))
}

/// A text after the character filters.
pub struct Normalized {
    /// The filtered text, which segmentation works on.
    pub text: String,
    /// The offset maps that lead from the filtered text back to the text
    /// as it was given.
    pub maps: OffsetStack,
}

/// A chain of character filters and token filters around a segmenter.
#[derive(Debug)]
pub struct Analyzer {
    character_filters: Vec<CharacterFilter>,
    token_filters: Vec<TokenFilter>,
    with_details: bool,
}

impl View for Analyzer {
    type V = AnalyzerView;

    closed spec fn view(&self) -> AnalyzerView {
        AnalyzerView {
            character_filters: character_filter_views(self.character_filters@),
            token_filters: token_filter_views(self.token_filters@),
        }
    }
}

impl Clone for Analyzer {
    fn clone(&self) -> (copy: Self)
        ensures
            copy@ == self@,
    {
        proof {
            use_type_invariant(self);
        }
        let mut character_filters: Vec<CharacterFilter> = Vec::new();
        let mut i: usize = 0;
        while i < self.character_filters.len()
            invariant
                i <= self.character_filters@.len(),
                character_filters@.len() == i,
                forall|j: int|
                    0 <= j < i ==> (#[trigger] character_filters@[j])@
                        == self.character_filters@[j]@,
            decreases self.character_filters@.len() - i,
        {
            character_filters.push(self.character_filters[i].clone());
            i = i + 1;
        }
        let mut token_filters: Vec<TokenFilter> = Vec::new();
        let mut k: usize = 0;
        while k < self.token_filters.len()
            invariant
                k <= self.token_filters@.len(),
                token_filters@.len() == k,
                forall|j: int|
                    0 <= j < k ==> (#[trigger] token_filters@[j])@ == self.token_filters@[j]@,
            decreases self.token_filters@.len() - k,
        {
            token_filters.push(self.token_filters[k].clone());
            k = k + 1;
        }
        proof {
            assert(character_filter_views(character_filters@) =~= character_filter_views(
                self.character_filters@,
            ));
            assert(token_filter_views(token_filters@) =~= token_filter_views(self.token_filters@));
        }
        Analyzer { character_filters, token_filters, with_details: self.with_details }
    }
}

impl Analyzer {
    /// Whether some token filter reads the features of the tokens is
    /// worked out once, when the analyzer is made.
    #[verifier::type_invariant]
    spec fn details_are_known(self) -> bool {
        self.with_details == self@.with_details()
    }

    /// The analyzer of the given filters, which it applies in their order.
    pub fn new(character_filters: Vec<CharacterFilter>, token_filters: Vec<TokenFilter>) -> (analyzer:
        Self)
        ensures
            analyzer@.character_filters == character_filter_views(character_filters@),
            analyzer@.token_filters == token_filter_views(token_filters@),
    {
        let mut with_details = false;
        let mut i: usize = 0;
        let ghost views = token_filter_views(token_filters@);
        while i < token_filters.len()
            invariant
                i <= token_filters@.len(),
                views == token_filter_views(token_filters@),
                with_details == exists|j: int|
                    0 <= j < i && reads_details((#[trigger] views[j]).name()),
            decreases token_filters@.len() - i,
        {
            let reads = name_reads_details(token_filters[i].name());
            proof {
                assert(views[i as int] == token_filters@[i as int]@);
                if reads {
                    assert(reads_details(views[i as int].name()));
                }
            }
            with_details = with_details || reads;
            i = i + 1;
        }
        proof {
            let view = AnalyzerView {
                character_filters: character_filter_views(character_filters@),
                token_filters: views,
            };
            if with_details {
                let j = choose|j: int| 0 <= j < i && reads_details((#[trigger] views[j]).name());
                assert(reads_details(view.token_filters[j].name()));
            }
            if view.with_details() {
                let j = choose|j: int|
                    0 <= j < view.token_filters.len() && reads_details(
                        (#[trigger] view.token_filters[j]).name(),
                    );
                assert(reads_details(views[j].name()));
            }
        }
        Self { character_filters, token_filters, with_details }
    }

    /// Reads the analyzer that the configuration `value` describes: the
    /// character filters of its member `character_filters` and the token
    /// filters of its member `token_filters`, each entry an object with the
    /// name of a kind of filter in `kind` and the filter's arguments in
    /// `args`. The member `tokenizer`, which describes the segmenter, has
    /// to be an object. Whatever does not fit is an error, of the kind
    /// `Deserialize` unless a filter's arguments make it another.
    pub fn from_value(value: &Json) -> (analyzer: LinderaResult<Self>)
        ensures
            match analyzer_of(*value) {
                Ok(view) => analyzer matches Ok(a) && a@ == view,
                Err(failure) => analyzer matches Err(err) && fails_as(err, failure),
            },
    {
        let character_filters = match value.get("character_filters") {
            Some(Json::Array(items)) => match read_character_filters(items) {
                Ok(filters) => filters,
                Err(err) => {
                    return Err(err);
                },
            },
            _ => {
                let filters: Vec<CharacterFilter> = Vec::new();
                proof {
                    assert(character_filter_views(filters@) =~= Seq::empty());
                }
                filters
            },
        };
        let has_tokenizer = match value.get("tokenizer") {
            Some(tokenizer) => tokenizer.is_object(),
            None => false,
        };
        if !has_tokenizer {
            return Err(
                LinderaErrorKind::Deserialize.with_detail(
                    String::from_str("missing tokenizer config."),
                ),
            );
        }
        let token_filters = match value.get("token_filters") {
            Some(Json::Array(items)) => match read_token_filters(items) {
                Ok(filters) => filters,
                Err(err) => {
                    return Err(err);
                },
            },
            _ => {
                let filters: Vec<TokenFilter> = Vec::new();
                proof {
                    assert(token_filter_views(filters@) =~= Seq::empty());
                }
                filters
            },
        };
        Ok(Self::new(character_filters, token_filters))
    }

    /// Reads the analyzer that the JSON document in `data` describes.
    /// Bytes that hold no document are an error of the kind `Deserialize`.
    pub fn from_slice(data: &[u8]) -> (analyzer: LinderaResult<Self>)
        ensures
            match analyzer_of_document(data@) {
                Ok(view) => analyzer matches Ok(a) && a@ == view,
                Err(failure) => analyzer matches Err(err) && fails_as(err, failure),
            },
    {
        match Json::parse(data) {
            Ok(value) => Self::from_value(&value),
            Err(err) => Err(err),
        }
    }

    /// The character filters, in the order in which they are applied.
    pub fn character_filters(&self) -> (filters: &Vec<CharacterFilter>)
        ensures
            character_filter_views(filters@) == self@.character_filters,
    {
        &self.character_filters
    }

    /// The token filters, in the order in which they are applied.
    pub fn token_filters(&self) -> (filters: &Vec<TokenFilter>)
        ensures
            token_filter_views(filters@) == self@.token_filters,
    {
        &self.token_filters
    }

    /// Whether segmentation has to supply the features of the tokens.
    pub fn with_details(&self) -> (with_details: bool)
        ensures
            with_details == self@.with_details(),
    {
        proof {
            use_type_invariant(self);
        }
        self.with_details
    }

    /// Applies the character filters to `text`, in their order, and keeps
    /// the offset map of each one that changed the length of the text,
    /// that of the filter applied last first. The first filter that fails
    /// ends the work with its error.
    pub fn normalize(&self, text: &str) -> (out: LinderaResult<Normalized>)
        ensures
            match character_filtered(self@.character_filters, text@) {
                Ok(view) => out matches Ok(n) && n.text@ == view.text && n.maps@ == view.maps,
                Err(error_kind) => out matches Err(err) && err.kind == error_kind,
            },
    {
        let ghost filters = self@.character_filters;
        let mut current = String::from_str(text);
        let mut maps = OffsetStack::new();
        let mut i: usize = 0;
        proof {
            assert(filters.take(0) =~= Seq::empty());
        }
        while i < self.character_filters.len()
            invariant
                i <= self.character_filters@.len(),
                filters == character_filter_views(self.character_filters@),
                character_filtered(filters.take(i as int), text@) == Ok::<
                    NormalizedView,
                    LinderaErrorKind,
                >(
                    NormalizedView { text: current@, maps: maps@ },
                ),
            decreases self.character_filters@.len() - i,
        {
            proof {
                assert(filters.take(i + 1).drop_last() =~= filters.take(i as int));
                assert(filters.take(i + 1).last() == self.character_filters@[i as int]@);
            }
            match self.character_filters[i].apply(current.as_str()) {
                Ok((new_text, offsets, diffs)) => {
                    if offsets.len() > 0 {
                        let text_len = new_text.as_str().as_bytes().len();
                        maps = maps.with_front(OffsetMapEntry { offsets, diffs, text_len });
                    }
                    current = new_text;
                },
                Err(err) => {
                    proof {
                        lemma_character_filtered_fail(filters, text@, i + 1);
                    }
                    return Err(err);
                },
            }
            i = i + 1;
        }
        proof {
            assert(filters.take(i as int) =~= filters);
        }
        Ok(Normalized { text: current, maps })
    }

    /// Analyzes `text`: applies the character filters, has `segment` cut
    /// the filtered text into tokens, with their features where a token
    /// filter reads them, applies the token filters, and leads the
    /// positions of the tokens that are left back to `text`.
    ///
    /// An error of a character filter or of `segment` ends the work and is
    /// returned.
    pub fn analyze<F>(&self, text: &str, segment: F) -> (tokens: LinderaResult<Vec<Token>>) where
        F: Fn(&str, bool) -> LinderaResult<Vec<Token>>,

        requires
            forall|filtered: &str, with_details: bool|
                call_requires(segment, (filtered, with_details)),
        ensures
            match character_filtered(self@.character_filters, text@) {
                Err(error_kind) => tokens matches Err(err) && err.kind == error_kind,
                Ok(view) => exists|filtered: &str, segmented: LinderaResult<Vec<Token>>|
                    {
                        &&& filtered@ == view.text
                        &&& #[trigger] call_ensures(
                            segment,
                            (filtered, self@.with_details()),
                            segmented,
                        )
                        &&& match segmented {
                            Ok(found) => tokens matches Ok(left) && token_views(left@)
                                == all_relocated(
                                all_filtered(self@.token_filters, token_views(found@)),
                                view.maps,
                            ),
                            Err(err) => tokens matches Err(returned) && returned == err,
                        }
                    },
            },
    {
        let normalized = match self.normalize(text) {
            Ok(normalized) => normalized,
            Err(err) => {
                return Err(err);
            },
        };
        let with_details = self.with_details();
        let segmented = segment(normalized.text.as_str(), with_details);
        match segmented {
            Ok(mut found) => {
                let _ = self.filter_tokens(&mut found);
                Ok(correct_tokens(&normalized.maps, found))
            },
            Err(err) => Err(err),
        }
    }

    /// Applies the token filters to `tokens`, in their order.
    pub fn filter_tokens(&self, tokens: &mut Vec<Token>) -> (done: LinderaResult<()>)
        ensures
            done is Ok,
            token_views(final(tokens)@) == all_filtered(
                self@.token_filters,
                token_views(old(tokens)@),
            ),
    {
        let ghost filters = self@.token_filters;
        let ghost given = token_views(tokens@);
        let mut i: usize = 0;
        proof {
            assert(filters.take(0) =~= Seq::empty());
        }
        while i < self.token_filters.len()
            invariant
                i <= self.token_filters@.len(),
                filters == token_filter_views(self.token_filters@),
                token_views(tokens@) == all_filtered(filters.take(i as int), given),
            decreases self.token_filters@.len() - i,
        {
            proof {
                assert(filters.take(i + 1).drop_last() =~= filters.take(i as int));
                assert(filters.take(i + 1).last() == self.token_filters@[i as int]@);
            }
            let _ = self.token_filters[i].apply(tokens);
            i = i + 1;
        }
        proof {
            assert(filters.take(i as int) =~= filters);
        }
        Ok(())
    }
}

/// The first character filter that fails decides the outcome.
proof fn lemma_character_filtered_fail(filters: Seq<CharacterFilterView>, text: Seq<char>, k: int)
    requires
        0 <= k <= filters.len(),
        character_filtered(filters.take(k), text) is Err,
    ensures
        character_filtered(filters, text) == character_filtered(filters.take(k), text),
    decreases filters.len() - k,
{
    if k < filters.len() {
        assert(filters.take(k + 1).drop_last() =~= filters.take(k));
        lemma_character_filtered_fail(filters, text, k + 1);
    } else {
        assert(filters.take(k) =~= filters);
    }
}

/// Leads the positions of `tokens` back through `maps`, from the filtered
/// text to the text as it was given. Text and features stay, and a token
/// whose span is not inverted keeps it so.
pub fn correct_tokens(maps: &OffsetStack, tokens: Vec<Token>) -> (corrected: Vec<Token>)
    ensures
        token_views(corrected@) == all_relocated(token_views(tokens@), maps@),
        forall|i: int|
            0 <= i < tokens@.len() && tokens@[i].byte_start <= tokens@[i].byte_end ==> (
            #[trigger] corrected@[i]).byte_start <= corrected@[i].byte_end,
{
    let ghost given = tokens@;
    let mut corrected: Vec<Token> = Vec::new();
    let mut i: usize = 0;
    assert(given.len() == tokens.len());
    for token in it: tokens
        invariant
            i == it.index(),
            it.seq() == given,
            given.len() <= usize::MAX,
            corrected@.len() == i,
            forall|j: int|
                0 <= j < i ==> (#[trigger] corrected@[j])@ == relocated(given[j]@, maps@),
            forall|j: int|
                0 <= j < i && given[j].byte_start <= given[j].byte_end ==> (
                #[trigger] corrected@[j]).byte_start <= corrected@[j].byte_end,
    {
        let Token { text, details, byte_start, byte_end } = token;
        let (byte_start, byte_end) = maps.correct_span(byte_start, byte_end);
        corrected.push(Token { text, details, byte_start, byte_end });
        i = i + 1;
    }
    proof {
        assert(token_views(corrected@) =~= all_relocated(token_views(given), maps@));
    }
    corrected
}

} // verus!
