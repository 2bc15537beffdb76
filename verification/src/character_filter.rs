//! Character filters and the offset maps they emit.
//!
//! A character filter rewrites the text before segmentation. Where it
//! changes the length of the text it records, in two parallel lists, the
//! positions in its output at which the cumulative change of length takes a
//! new value (`offsets`) and that value, input length minus output length
//! (`diffs`). The map leads from a byte position in the output back to the
//! byte position in the input.

use vstd::prelude::*;
use vstd::string::StringExecFns;

use crate::character_filter::japanese_iteration_mark::{
    iteration_marks_written_out, JapaneseIterationMarkCharacterFilter,
    JapaneseIterationMarkCharacterFilterConfig, JAPANESE_ITERATION_MARK_CHARACTER_FILTER_NAME,
};
use crate::character_filter::mapping::{
    mapped, MappingCharacterFilter, MappingCharacterFilterConfig, MappingView,
    MAPPING_CHARACTER_FILTER_NAME,
};
use crate::character_filter::regex::{
    regex_compiles, RegexCharacterFilter, RegexCharacterFilterConfig,
    RegexCharacterFilterConfigView, REGEX_CHARACTER_FILTER_NAME,
};
use crate::character_filter::unicode_normalize::{
    normalized, UnicodeNormalizeCharacterFilter, UnicodeNormalizeCharacterFilterConfig,
    UnicodeNormalizeKind, UNICODE_NORMALIZE_CHARACTER_FILTER_NAME,
};
use crate::error::{LinderaErrorKind, LinderaResult};
use crate::json::Json;

pub mod japanese_iteration_mark;
pub mod mapping;
pub mod regex;
pub mod replacement;
pub mod unicode_normalize;

verus! {

/// Whether `offsets` is strictly increasing.
pub open spec fn strictly_increasing(offsets: Seq<usize>) -> bool {
    forall|i: int, j: int| 0 <= i < j < offsets.len() ==> offsets[i] < offsets[j]
}

/// Whether `offsets` and `diffs` are the two lists of one offset map: of
/// equal length, with strictly increasing offsets.
pub open spec fn is_offset_map(offsets: Seq<usize>, diffs: Seq<i64>) -> bool {
    &&& offsets.len() == diffs.len()
    &&& strictly_increasing(offsets)
}

/// Whether no event of the map lowers the cumulative difference by more
/// than one. This is what keeps the map from folding back on itself.
pub open spec fn is_gentle(offsets: Seq<usize>, diffs: Seq<i64>) -> bool {
    &&& offsets.len() > 0 && offsets[0] > 0 ==> diffs[0] >= -1
    &&& forall|k: int| 1 <= k < offsets.len() ==> #[trigger] diffs[k] >= diffs[k - 1] - 1
}

/// The index of the last event at or before `pos`: the greatest `k` with
/// `offsets[k] <= pos`, or -1 where there is none.
pub open spec fn event_index(pos: int, offsets: Seq<usize>) -> int
    decreases offsets.len(),
{
    if offsets.len() == 0 {
        -1
    } else if offsets.last() <= pos {
        offsets.len() - 1
    } else {
        event_index(pos, offsets.drop_last())
    }
}

/// The cumulative difference in effect at `pos`: that of the last event at
/// or before `pos`, or 0 before the first event.
pub open spec fn diff_at(pos: int, offsets: Seq<usize>, diffs: Seq<i64>) -> int {
    let k = event_index(pos, offsets);
    if 0 <= k < diffs.len() {
        diffs[k] as int
    } else {
        0
    }
}

/// The position in the input that the position `pos` of the output came
/// from.
pub open spec fn source_position(pos: int, offsets: Seq<usize>, diffs: Seq<i64>) -> int {
    pos + diff_at(pos, offsets, diffs)
}

/// `x` where it is a `usize`, else the nearest `usize`.
pub open spec fn saturated(x: int) -> usize {
    if x < 0 {
        0
    } else if x > usize::MAX {
        usize::MAX
    } else {
        x as usize
    }
}

/// What `correct_offset` returns: the source position, kept within the
/// range of `usize`.
pub open spec fn corrected_offset(pos: usize, offsets: Seq<usize>, diffs: Seq<i64>) -> usize {
    saturated(source_position(pos as int, offsets, diffs))
}

/// The two lists of an offset map, as one value.
#[verifier::ext_equal]
pub struct OffsetMap {
    pub offsets: Seq<usize>,
    pub diffs: Seq<i64>,
}

/// The map without events.
pub open spec fn empty_map() -> OffsetMap {
    OffsetMap { offsets: Seq::empty(), diffs: Seq::empty() }
}

/// The cumulative difference after the last event of a map: its last
/// difference, and 0 where it has none.
pub open spec fn last_diff(diffs: Seq<i64>) -> int {
    if diffs.len() > 0 {
        diffs.last() as int
    } else {
        0
    }
}

/// The map `m` with an event more: from `offset` on, the cumulative
/// difference is `diff`. An event at the position of the last one takes
/// its place.
pub open spec fn with_event(m: OffsetMap, offset: usize, diff: i64) -> OffsetMap {
    if m.offsets.len() > 0 && m.offsets.last() == offset {
        OffsetMap {
            offsets: m.offsets,
            diffs: if m.diffs.len() > 0 {
                m.diffs.drop_last().push(diff)
            } else {
                seq![diff]
            },
        }
    } else {
        OffsetMap { offsets: m.offsets.push(offset), diffs: m.diffs.push(diff) }
    }
}

/// Records that from the position `offset` of the output on, the cumulative
/// difference is `diff`. A second event at the position of the last one
/// replaces its difference.
pub fn add_offset_diff(offsets: &mut Vec<usize>, diffs: &mut Vec<i64>, offset: usize, diff: i64)
    ensures
        (OffsetMap { offsets: final(offsets)@, diffs: final(diffs)@ }) == with_event(
            OffsetMap { offsets: old(offsets)@, diffs: old(diffs)@ },
            offset,
            diff,
        ),
{
    let ghost before = OffsetMap { offsets: offsets@, diffs: diffs@ };
    let n = offsets.len();
    if n > 0 && offsets[n - 1] == offset {
        diffs.pop();
        diffs.push(diff);
    } else {
        offsets.push(offset);
        diffs.push(diff);
    }
    assert((OffsetMap { offsets: offsets@, diffs: diffs@ }) =~= with_event(before, offset, diff));
}

/// In a strictly increasing list, the events at or before `pos` are the
/// first `m`, for the `m` that a search finds.
proof fn lemma_event_index(pos: int, offsets: Seq<usize>, m: int)
    requires
        0 <= m <= offsets.len(),
        forall|k: int| 0 <= k < m ==> offsets[k] <= pos,
        forall|k: int| m <= k < offsets.len() ==> offsets[k] > pos,
    ensures
        event_index(pos, offsets) == m - 1,
    decreases offsets.len(),
{
    if offsets.len() > 0 && m < offsets.len() {
        lemma_event_index(pos, offsets.drop_last(), m);
    }
}

/// What `event_index` picks: the last index whose offset is at or before
/// `pos`.
pub proof fn lemma_event_index_is_last(pos: int, offsets: Seq<usize>)
    ensures
        -1 <= event_index(pos, offsets) < offsets.len(),
        event_index(pos, offsets) >= 0 ==> offsets[event_index(pos, offsets)] <= pos,
        forall|j: int| event_index(pos, offsets) < j < offsets.len() ==> offsets[j] > pos,
    decreases offsets.len(),
{
    if offsets.len() > 0 && offsets.last() > pos {
        let front = offsets.drop_last();
        lemma_event_index_is_last(pos, front);
        assert forall|j: int| event_index(pos, offsets) < j < offsets.len() implies offsets[j]
            > pos by {
            if j < front.len() {
                assert(front[j] == offsets[j]);
            }
        }
    }
}

/// One step to the right in the output is no step to the left in the input.
proof fn lemma_source_position_step(p: int, offsets: Seq<usize>, diffs: Seq<i64>)
    requires
        is_offset_map(offsets, diffs),
        is_gentle(offsets, diffs),
        0 <= p,
    ensures
        source_position(p, offsets, diffs) <= source_position(p + 1, offsets, diffs),
{
    let k = event_index(p, offsets);
    let k1 = event_index(p + 1, offsets);
    lemma_event_index_is_last(p, offsets);
    lemma_event_index_is_last(p + 1, offsets);
    if k1 != k {
        assert(k1 > k) by {
            if k >= 0 && k1 < k {
                assert(offsets[k] > p + 1);
            }
        }
        assert(offsets[k1] == p + 1);
        assert(k1 == k + 1) by {
            if k1 > k + 1 {
                assert(offsets[k + 1] > p);
                assert(offsets[k + 1] < offsets[k1]);
            }
        }
        if k >= 0 {
            assert(diffs[k1] >= diffs[k1 - 1] - 1);
        }
    }
}

/// The map of a filter never folds back: of two positions of the output,
/// the later one comes from a position of the input that is no earlier.
/// This holds of every map in which no event lowers the cumulative
/// difference by more than one.
pub proof fn lemma_source_position_monotonic(
    p: int,
    q: int,
    offsets: Seq<usize>,
    diffs: Seq<i64>,
)
    requires
        is_offset_map(offsets, diffs),
        is_gentle(offsets, diffs),
        0 <= p <= q,
    ensures
        source_position(p, offsets, diffs) <= source_position(q, offsets, diffs),
    decreases q - p,
{
    if p < q {
        lemma_source_position_monotonic(p, q - 1, offsets, diffs);
        lemma_source_position_step(q - 1, offsets, diffs);
    }
}

/// `correct_offset` is a non-decreasing function of the position it is
/// given, for every map in which no event lowers the cumulative difference
/// by more than one.
pub proof fn lemma_correct_offset_monotonic(
    p: usize,
    q: usize,
    offsets: Seq<usize>,
    diffs: Seq<i64>,
)
    requires
        is_offset_map(offsets, diffs),
        is_gentle(offsets, diffs),
        p <= q,
    ensures
        corrected_offset(p, offsets, diffs) <= corrected_offset(q, offsets, diffs),
{
    lemma_source_position_monotonic(p as int, q as int, offsets, diffs);
}

/// At the end of the output the last event's difference is in effect,
/// where no event lies beyond the end.
pub proof fn lemma_end_of_text_uses_last_diff(
    text_len: usize,
    offsets: Seq<usize>,
    diffs: Seq<i64>,
)
    requires
        is_offset_map(offsets, diffs),
        offsets.len() > 0,
        forall|k: int| 0 <= k < offsets.len() ==> offsets[k] <= text_len,
    ensures
        diff_at(text_len as int, offsets, diffs) == diffs.last(),
{
    lemma_event_index(text_len as int, offsets, offsets.len() as int);
}

/// Leads the byte position `offset` of a filter's output back to the byte
/// position in its input: `offset` plus the cumulative difference of the
/// last event at or before it, and `offset` itself before the first event.
/// A result outside the range of `usize` is brought to the nearest bound.
/// `text_len` is the length of the output, which bounds the positions that
/// are meant to be asked for; the result does not depend on it.
pub fn correct_offset(offset: usize, offsets: &[usize], diffs: &[i64], text_len: usize) -> (source:
    usize)
    requires
        is_offset_map(offsets@, diffs@),
    ensures
        source == corrected_offset(offset, offsets@, diffs@),
{
    let mut lo: usize = 0;
    let mut hi: usize = offsets.len();
    while lo < hi
        invariant
            lo <= hi <= offsets@.len(),
            is_offset_map(offsets@, diffs@),
            forall|k: int| 0 <= k < lo ==> offsets@[k] <= offset,
            forall|k: int| hi <= k < offsets@.len() ==> offsets@[k] > offset,
        decreases hi - lo,
    {
        let mid = lo + (hi - lo) / 2;
        if offsets[mid] <= offset {
            lo = mid + 1;
        } else {
            hi = mid;
        }
    }
    proof {
        lemma_event_index(offset as int, offsets@, lo as int);
    }
    if lo == 0 {
        offset
    } else {
        let moved: i128 = offset as i128 + diffs[lo - 1] as i128;
        if moved < 0 {
            0
        } else if moved > usize::MAX as i128 {
            usize::MAX
        } else {
            moved as usize
        }
    }
}

/// A character filter of any of the kinds that the library holds.
#[derive(Debug)]
pub enum CharacterFilter {
    JapaneseIterationMark(JapaneseIterationMarkCharacterFilter),
    Mapping(MappingCharacterFilter),
    Regex(RegexCharacterFilter),
    UnicodeNormalize(UnicodeNormalizeCharacterFilter),
}

/// What a character filter is configured with, by its kind.
pub enum CharacterFilterView {
    JapaneseIterationMark(JapaneseIterationMarkCharacterFilterConfig),
    Mapping(Seq<MappingView>),
    Regex(RegexCharacterFilterConfigView),
    UnicodeNormalize(UnicodeNormalizeKind),
}

/// `out` where a filter made it, and the error of the kind `Args` where
/// the text with its replacements did not fit the address space.
pub open spec fn made(out: Option<(Seq<char>, OffsetMap)>) -> Result<
    (Seq<char>, OffsetMap),
    LinderaErrorKind,
> {
    match out {
        Some(out) => Ok(out),
        None => Err(LinderaErrorKind::Args),
    }
}

impl CharacterFilterView {
    /// The name by which a configuration asks for a filter of this kind.
    pub open spec fn name(self) -> Seq<char> {
        match self {
            CharacterFilterView::JapaneseIterationMark(_) => {
                JAPANESE_ITERATION_MARK_CHARACTER_FILTER_NAME@
            },
            CharacterFilterView::Mapping(_) => MAPPING_CHARACTER_FILTER_NAME@,
            CharacterFilterView::Regex(_) => REGEX_CHARACTER_FILTER_NAME@,
            CharacterFilterView::UnicodeNormalize(_) => UNICODE_NORMALIZE_CHARACTER_FILTER_NAME@,
        }
    }

    /// What the filter makes of `text`, the new text and its offset map,
    /// or the kind of the error that it meets.
    pub open spec fn filtered(self, text: Seq<char>) -> Result<
        (Seq<char>, OffsetMap),
        LinderaErrorKind,
    > {
        match self {
            CharacterFilterView::JapaneseIterationMark(config) => made(
                iteration_marks_written_out(config, text),
            ),
            CharacterFilterView::Mapping(table) => made(mapped(table, text)),
            CharacterFilterView::Regex(config) => made(config.filtered(text)),
            CharacterFilterView::UnicodeNormalize(kind) => made(normalized(kind, text)),
        }
    }
}

impl View for CharacterFilter {
    type V = CharacterFilterView;

    open spec fn view(&self) -> CharacterFilterView {
        match self {
            CharacterFilter::JapaneseIterationMark(filter) => {
                CharacterFilterView::JapaneseIterationMark(filter.config())
            },
            CharacterFilter::Mapping(filter) => CharacterFilterView::Mapping(filter@),
            CharacterFilter::Regex(filter) => CharacterFilterView::Regex(filter@),
            CharacterFilter::UnicodeNormalize(filter) => CharacterFilterView::UnicodeNormalize(
                filter.kind(),
            ),
        }
    }
}

impl Clone for CharacterFilter {
    fn clone(&self) -> (copy: Self)
        ensures
            copy@ == self@,
    {
        match self {
            CharacterFilter::JapaneseIterationMark(filter) => {
                CharacterFilter::JapaneseIterationMark(*filter)
            },
            CharacterFilter::Mapping(filter) => CharacterFilter::Mapping(filter.clone()),
            CharacterFilter::Regex(filter) => CharacterFilter::Regex(filter.clone()),
            CharacterFilter::UnicodeNormalize(filter) => CharacterFilter::UnicodeNormalize(*filter),
        }
    }
}

/// The filter that a configuration asks for by the name `kind` and the
/// arguments `args`, or the kind of the error that it meets: `Deserialize`
/// for a name that is no kind of character filter and for arguments that
/// do not fit the kind, `Args` for a pattern that does not compile.
pub open spec fn character_filter_of_kind(kind: Seq<char>, args: Json) -> Result<
    CharacterFilterView,
    LinderaErrorKind,
> {
    if kind == JAPANESE_ITERATION_MARK_CHARACTER_FILTER_NAME@ {
        match JapaneseIterationMarkCharacterFilterConfig::of_json(args) {
            Some(config) => Ok(CharacterFilterView::JapaneseIterationMark(config)),
            None => Err(LinderaErrorKind::Deserialize),
        }
    } else if kind == MAPPING_CHARACTER_FILTER_NAME@ {
        match MappingCharacterFilterConfig::of_json(args) {
            Some(table) => Ok(CharacterFilterView::Mapping(table)),
            None => Err(LinderaErrorKind::Deserialize),
        }
    } else if kind == REGEX_CHARACTER_FILTER_NAME@ {
        match RegexCharacterFilterConfig::of_json(args) {
            Some(config) => if regex_compiles(config.pattern) {
                Ok(CharacterFilterView::Regex(config))
            } else {
                Err(LinderaErrorKind::Args)
            },
            None => Err(LinderaErrorKind::Deserialize),
        }
    } else if kind == UNICODE_NORMALIZE_CHARACTER_FILTER_NAME@ {
        match UnicodeNormalizeCharacterFilterConfig::of_json(args) {
            Some(config) => Ok(CharacterFilterView::UnicodeNormalize(config.kind)),
            None => Err(LinderaErrorKind::Deserialize),
        }
    } else {
        Err(LinderaErrorKind::Deserialize)
    }
}

/// Whether `kind` names a kind of character filter that the library holds.
pub open spec fn is_character_filter_kind(kind: Seq<char>) -> bool {
    ||| kind == JAPANESE_ITERATION_MARK_CHARACTER_FILTER_NAME@
    ||| kind == MAPPING_CHARACTER_FILTER_NAME@
    ||| kind == REGEX_CHARACTER_FILTER_NAME@
    ||| kind == UNICODE_NORMALIZE_CHARACTER_FILTER_NAME@
}

/// The detail of the error for a name that is no kind of character filter.
pub open spec fn unknown_character_filter(kind: Seq<char>) -> Seq<char> {
    "unknown character filter "@ + kind + "."@
}

impl CharacterFilter {
    /// The filter that a configuration asks for by the name `kind` and
    /// the arguments `args`.
    pub fn from_kind(kind: &str, args: &Json) -> (filter: LinderaResult<Self>)
        ensures
            match character_filter_of_kind(kind@, *args) {
                Ok(view) => filter matches Ok(f) && f@ == view,
                Err(error_kind) => filter matches Err(err) && err.kind == error_kind,
            },
            !is_character_filter_kind(kind@) ==> (filter matches Err(err) && err.detail@
                == unknown_character_filter(kind@)),
    {
        if kind.eq(JAPANESE_ITERATION_MARK_CHARACTER_FILTER_NAME) {
            match JapaneseIterationMarkCharacterFilter::from_value(args) {
                Ok(filter) => Ok(CharacterFilter::JapaneseIterationMark(filter)),
                Err(err) => Err(err),
            }
        } else if kind.eq(MAPPING_CHARACTER_FILTER_NAME) {
            match MappingCharacterFilter::from_value(args) {
                Ok(filter) => Ok(CharacterFilter::Mapping(filter)),
                Err(err) => Err(err),
            }
        } else if kind.eq(REGEX_CHARACTER_FILTER_NAME) {
            match RegexCharacterFilter::from_value(args) {
                Ok(filter) => Ok(CharacterFilter::Regex(filter)),
                Err(err) => Err(err),
            }
        } else if kind.eq(UNICODE_NORMALIZE_CHARACTER_FILTER_NAME) {
            match UnicodeNormalizeCharacterFilter::from_value(args) {
                Ok(filter) => Ok(CharacterFilter::UnicodeNormalize(filter)),
                Err(err) => Err(err),
            }
        } else {
            let mut detail = String::from_str("unknown character filter ");
            detail.append(kind);
            detail.append(".");
            Err(LinderaErrorKind::Deserialize.with_detail(detail))
        }
    }

    /// The name by which a configuration asks for this filter.
    pub fn name(&self) -> (name: &'static str)
        ensures
            name@ == self@.name(),
    {
        match self {
            CharacterFilter::JapaneseIterationMark(filter) => filter.name(),
            CharacterFilter::Mapping(filter) => filter.name(),
            CharacterFilter::Regex(filter) => filter.name(),
            CharacterFilter::UnicodeNormalize(filter) => filter.name(),
        }
    }

    /// Applies the filter to `text`: returns the new text and its offset
    /// map.
    pub fn apply(&self, text: &str) -> (filtered: LinderaResult<(String, Vec<usize>, Vec<i64>)>)
        ensures
            match self@.filtered(text@) {
                Ok((new_text, map)) => filtered matches Ok(out) && out.0@ == new_text && (
                OffsetMap { offsets: out.1@, diffs: out.2@ }) == map,
                Err(error_kind) => filtered matches Err(err) && err.kind == error_kind,
            },
            filtered matches Ok(out) ==> is_offset_map(out.1@, out.2@) && is_gentle(out.1@, out.2@),
    {
        match self {
            CharacterFilter::JapaneseIterationMark(filter) => filter.apply(text),
            CharacterFilter::Mapping(filter) => filter.apply(text),
            CharacterFilter::Regex(filter) => filter.apply(text),
            CharacterFilter::UnicodeNormalize(filter) => filter.apply(text),
        }
    }
}

} // verus!
