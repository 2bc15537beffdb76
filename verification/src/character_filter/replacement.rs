//! The offset map of a text in which stretches of bytes gave way to
//! replacements, as every character filter that substitutes makes it.

use vstd::prelude::*;

use crate::character_filter::{
    add_offset_diff, corrected_offset, empty_map, is_gentle, is_offset_map, last_diff,
    lemma_end_of_text_uses_last_diff, lemma_source_position_monotonic, source_position,
    with_event, OffsetMap,
};

verus! {

/// A replacement: the bytes from `start` to `end` of the input give way to
/// `len` bytes in the output.
#[derive(Debug, Clone, Copy, PartialEq, Eq, Structural)]
pub struct Replacement {
    pub start: usize,
    pub end: usize,
    pub len: usize,
}

/// Whether `replacements` lie in a text of `text_len` bytes one after the
/// other: each starts no later than it ends, ends within the text, and
/// starts no earlier than the one before it ends.
pub open spec fn successive(replacements: Seq<Replacement>, text_len: int) -> bool {
    &&& forall|i: int|
        0 <= i < replacements.len() ==> (#[trigger] replacements[i]).start <= replacements[i].end
            <= text_len
    &&& forall|i: int, j: int|
        0 <= i < j < replacements.len() ==> (#[trigger] replacements[i]).end <= (
        #[trigger] replacements[j]).start
}

/// The end of the last of `replacements`, and 0 where there is none.
pub open spec fn reach(replacements: Seq<Replacement>) -> int {
    if replacements.len() > 0 {
        replacements.last().end as int
    } else {
        0
    }
}

/// The number of bytes that `replacements` put into the output.
pub open spec fn total_len(replacements: Seq<Replacement>) -> int
    decreases replacements.len(),
{
    if replacements.len() == 0 {
        0
    } else {
        total_len(replacements.drop_last()) + replacements.last().len
    }
}

/// The number of bytes of the input that give way to `replacements`.
pub open spec fn replaced_len(replacements: Seq<Replacement>) -> int
    decreases replacements.len(),
{
    if replacements.len() == 0 {
        0
    } else {
        replaced_len(replacements.drop_last()) + (replacements.last().end
            - replacements.last().start)
    }
}

/// The number of bytes of a text of `text_len` bytes after `replacements`
/// were made in it.
pub open spec fn output_len(replacements: Seq<Replacement>, text_len: int) -> int {
    text_len - replaced_len(replacements) + total_len(replacements)
}

/// Whether a text of `text_len` bytes with `replacements` made in it fits
/// the address space, the replaced bytes counted in.
pub open spec fn replacements_fit(replacements: Seq<Replacement>, text_len: int) -> bool {
    text_len + total_len(replacements) <= isize::MAX
}

/// The map `m` after `count` bytes were inserted at `start`: one event for
/// each byte, each one lower than the one before, beginning below `prev`.
pub open spec fn with_inserted(m: OffsetMap, start: int, prev: int, count: nat) -> OffsetMap
    decreases count,
{
    if count == 0 {
        m
    } else {
        let j = count - 1;
        with_event(
            with_inserted(m, start, prev, j as nat),
            (start + j) as usize,
            (prev - j - 1) as i64,
        )
    }
}

/// The map `m` after the bytes `span` of the input gave way to
/// `replacement_len` bytes.
pub open spec fn with_span(m: OffsetMap, span: (usize, usize), replacement_len: int) -> OffsetMap {
    let prev = last_diff(m.diffs);
    let diff_len = (span.1 - span.0) - replacement_len;
    if diff_len > 0 {
        with_event(m, (span.1 - diff_len - prev) as usize, (prev + diff_len) as i64)
    } else if diff_len < 0 {
        with_inserted(m, span.1 - prev, prev, (-diff_len) as nat)
    } else {
        m
    }
}

/// The map `m` after `replacement` was made. A replacement shorter than
/// what it replaces makes one event, at the end of the replacement in the
/// output. A longer one makes an event for each byte that it adds. One of
/// the same length makes none.
pub open spec fn with_replacement(m: OffsetMap, replacement: Replacement) -> OffsetMap {
    with_span(m, (replacement.start, replacement.end), replacement.len as int)
}

/// The offset map of a text in which `replacements` were made.
pub open spec fn map_of_replacements(replacements: Seq<Replacement>) -> OffsetMap
    decreases replacements.len(),
{
    if replacements.len() == 0 {
        empty_map()
    } else {
        with_replacement(map_of_replacements(replacements.drop_last()), replacements.last())
    }
}

/// Whether the last event of `m` does not lower the cumulative difference.
spec fn rises(m: OffsetMap) -> bool {
    let n = m.diffs.len() as int;
    if n == 1 {
        m.diffs[0] >= 0
    } else {
        n >= 2 && m.diffs[n - 1] >= m.diffs[n - 2]
    }
}

/// What holds of the map `m` once the replacements up to the byte `end` of
/// the input are made, where they put `grown` bytes into the output.
spec fn built(m: OffsetMap, end: int, grown: int) -> bool {
    let cum = last_diff(m.diffs);
    &&& is_offset_map(m.offsets, m.diffs)
    &&& is_gentle(m.offsets, m.diffs)
    &&& m.offsets.len() > 0 ==> m.diffs[0] >= -1
    &&& -grown <= cum <= end
    &&& m.offsets.len() > 0 ==> {
        &&& m.offsets.last() <= end - cum
        &&& (m.offsets.last() < end - cum || rises(m))
    }
}

/// A replacement shorter than what it replaces leaves the map in order.
proof fn lemma_shorter(m: OffsetMap, end: int, grown: int, span: (usize, usize), r: int)
    requires
        built(m, end, grown),
        0 <= grown,
        0 <= r,
        end <= span.0 <= span.1,
        span.1 - span.0 > r,
        span.1 + grown + r <= isize::MAX,
    ensures
        built(with_span(m, span, r), span.1 as int, grown + r),
        0 <= span.1 - (span.1 - span.0 - r) - last_diff(m.diffs) <= usize::MAX,
        i64::MIN <= last_diff(m.diffs) + (span.1 - span.0 - r) <= i64::MAX,
{
    let prev = last_diff(m.diffs);
    let d = span.1 - span.0 - r;
    let offset = (span.1 - d - prev) as usize;
    let diff = (prev + d) as i64;
    let after = with_event(m, offset, diff);
    let n = m.offsets.len() as int;
    assert(after == with_span(m, span, r));
    if n > 0 && m.offsets.last() == offset {
        assert(after.diffs =~= m.diffs.drop_last().push(diff));
        assert forall|k: int| 1 <= k < after.offsets.len() implies #[trigger] after.diffs[k]
            >= after.diffs[k - 1] - 1 by {
            assert(m.diffs[k] >= m.diffs[k - 1] - 1);
        }
    } else {
        assert forall|i: int, j: int| 0 <= i < j < after.offsets.len() implies after.offsets[i]
            < after.offsets[j] by {
            if j == n {
                assert(m.offsets[i] <= m.offsets[n - 1]);
            }
        }
        assert forall|k: int| 1 <= k < after.offsets.len() implies #[trigger] after.diffs[k]
            >= after.diffs[k - 1] - 1 by {
            if k < n {
                assert(m.diffs[k] >= m.diffs[k - 1] - 1);
            }
        }
    }
}

/// The first bytes that a replacement longer than what it replaces adds
/// leave the map in order, with its last event at the last byte added.
proof fn lemma_longer(
    m: OffsetMap,
    end: int,
    grown: int,
    span: (usize, usize),
    r: int,
    count: nat,
)
    requires
        built(m, end, grown),
        0 <= grown,
        end <= span.0 <= span.1,
        span.1 - span.0 < r,
        1 <= count <= r - (span.1 - span.0),
        span.1 + grown + r <= isize::MAX,
    ensures
        ({
            let prev = last_diff(m.diffs);
            let after = with_inserted(m, span.1 - prev, prev, count);
            &&& is_offset_map(after.offsets, after.diffs)
            &&& is_gentle(after.offsets, after.diffs)
            &&& after.offsets.len() > 0
            &&& after.diffs[0] >= -1
            &&& after.offsets.last() == span.1 - prev + count - 1
            &&& after.diffs.last() == prev - count
        }),
    decreases count,
{
    let prev = last_diff(m.diffs);
    let start = span.1 - prev;
    let j = (count - 1) as nat;
    let before = with_inserted(m, start, prev, j);
    let offset = (start + j) as usize;
    let diff = (prev - j - 1) as i64;
    let after = with_event(before, offset, diff);
    assert(after == with_inserted(m, start, prev, count));
    let n = before.offsets.len() as int;
    if count == 1 {
        assert(before == m);
        if n > 0 && m.offsets.last() == offset {
            assert(rises(m));
            assert(after.diffs =~= m.diffs.drop_last().push(diff));
            assert forall|k: int| 1 <= k < after.offsets.len() implies #[trigger] after.diffs[k]
                >= after.diffs[k - 1] - 1 by {
                assert(m.diffs[k] >= m.diffs[k - 1] - 1);
            }
        } else {
            assert forall|i: int, j: int| 0 <= i < j < after.offsets.len() implies after.offsets[i]
                < after.offsets[j] by {
                if j == n {
                    assert(m.offsets[i] <= m.offsets[n - 1]);
                }
            }
            assert forall|k: int| 1 <= k < after.offsets.len() implies #[trigger] after.diffs[k]
                >= after.diffs[k - 1] - 1 by {
                if k < n {
                    assert(m.diffs[k] >= m.diffs[k - 1] - 1);
                }
            }
        }
    } else {
        lemma_longer(m, end, grown, span, r, j);
        assert(before.offsets.last() == start + j - 1);
        assert forall|i: int, j: int| 0 <= i < j < after.offsets.len() implies after.offsets[i]
            < after.offsets[j] by {
            if j == n {
                assert(before.offsets[i] <= before.offsets[n - 1]);
            }
        }
        assert forall|k: int| 1 <= k < after.offsets.len() implies #[trigger] after.diffs[k]
            >= after.diffs[k - 1] - 1 by {
            if k < n {
                assert(before.diffs[k] >= before.diffs[k - 1] - 1);
            }
        }
    }
}

/// Every replacement leaves the map in order.
proof fn lemma_with_span(m: OffsetMap, end: int, grown: int, span: (usize, usize), r: int)
    requires
        built(m, end, grown),
        0 <= grown,
        0 <= r,
        end <= span.0 <= span.1,
        span.1 + grown + r <= isize::MAX,
    ensures
        built(with_span(m, span, r), span.1 as int, grown + r),
        last_diff(with_span(m, span, r).diffs) == last_diff(m.diffs) + (span.1 - span.0) - r,
{
    let len = span.1 - span.0;
    if len > r {
        lemma_shorter(m, end, grown, span, r);
    } else if len < r {
        lemma_longer(m, end, grown, span, r, (r - len) as nat);
    }
}

/// The first replacements of successive replacements are successive, and
/// put no more bytes into the output than all of them.
proof fn lemma_successive_take(replacements: Seq<Replacement>, text_len: int, k: int)
    requires
        successive(replacements, text_len),
        0 <= k <= replacements.len(),
    ensures
        successive(replacements.take(k), text_len),
        k < replacements.len() ==> reach(replacements.take(k)) <= replacements[k].start,
        0 <= total_len(replacements.take(k)) <= total_len(replacements),
        k < replacements.len() ==> total_len(replacements.take(k)) + replacements[k].len
            <= total_len(replacements),
    decreases replacements.len() - k,
{
    let front = replacements.take(k);
    assert forall|i: int| 0 <= i < front.len() implies (#[trigger] front[i]).start <= front[i].end
        <= text_len by {
        assert(front[i] == replacements[i]);
    }
    assert forall|i: int, j: int| 0 <= i < j < front.len() implies (#[trigger] front[i]).end <= (
    #[trigger] front[j]).start by {
        assert(front[i] == replacements[i]);
        assert(front[j] == replacements[j]);
    }
    if 0 < k < replacements.len() {
        assert(replacements[k - 1].end <= replacements[k].start);
    }
    lemma_total_len_at_least_zero(front);
    if k < replacements.len() {
        lemma_successive_take(replacements, text_len, k + 1);
        assert(replacements.take(k + 1).drop_last() =~= front);
    } else {
        assert(front =~= replacements);
    }
}

/// Replacements put no negative number of bytes into the output.
pub proof fn lemma_total_len_at_least_zero(replacements: Seq<Replacement>)
    ensures
        0 <= total_len(replacements),
    decreases replacements.len(),
{
    if replacements.len() > 0 {
        lemma_total_len_at_least_zero(replacements.drop_last());
    }
}

/// The map of successive replacements is an offset map in which no event
/// lowers the cumulative difference by more than one.
pub proof fn lemma_map_of_replacements(replacements: Seq<Replacement>, text_len: int)
    requires
        successive(replacements, text_len),
        replacements_fit(replacements, text_len),
    ensures
        is_offset_map(
            map_of_replacements(replacements).offsets,
            map_of_replacements(replacements).diffs,
        ),
        is_gentle(map_of_replacements(replacements).offsets, map_of_replacements(replacements).diffs),
{
    lemma_built(replacements, text_len);
}

/// The map of successive replacements leads every position of the output
/// to a position of the input, and the end of the output to the end of the
/// input.
pub proof fn lemma_map_stays_in_text(replacements: Seq<Replacement>, text_len: usize, pos: usize)
    requires
        successive(replacements, text_len as int),
        replacements_fit(replacements, text_len as int),
        pos <= output_len(replacements, text_len as int),
    ensures
        corrected_offset(
            pos,
            map_of_replacements(replacements).offsets,
            map_of_replacements(replacements).diffs,
        ) <= text_len,
        pos == output_len(replacements, text_len as int) ==> corrected_offset(
            pos,
            map_of_replacements(replacements).offsets,
            map_of_replacements(replacements).diffs,
        ) == text_len,
{
    let m = map_of_replacements(replacements);
    let end = output_len(replacements, text_len as int);
    lemma_built(replacements, text_len as int);
    lemma_total_len_at_least_zero(replacements);
    assert(0 <= end <= usize::MAX);
    if m.offsets.len() > 0 {
        assert forall|k: int| 0 <= k < m.offsets.len() implies m.offsets[k] <= end by {
            assert(m.offsets[k] <= m.offsets.last());
        }
        lemma_end_of_text_uses_last_diff(end as usize, m.offsets, m.diffs);
    }
    assert(source_position(end, m.offsets, m.diffs) == text_len);
    lemma_source_position_monotonic(pos as int, end, m.offsets, m.diffs);
}

/// What holds of the map once all of `replacements` are made.
proof fn lemma_built(replacements: Seq<Replacement>, text_len: int)
    requires
        successive(replacements, text_len),
        replacements_fit(replacements, text_len),
    ensures
        built(map_of_replacements(replacements), reach(replacements), total_len(replacements)),
        last_diff(map_of_replacements(replacements).diffs) == replaced_len(replacements)
            - total_len(replacements),
        replacements.len() > 0 ==> reach(replacements) <= text_len,
    decreases replacements.len(),
{
    if replacements.len() > 0 {
        let n = replacements.len() as int;
        let front = replacements.drop_last();
        let last = replacements.last();
        assert(front =~= replacements.take(n - 1));
        lemma_successive_take(replacements, text_len, n - 1);
        lemma_built(front, text_len);
        assert(last.start <= last.end <= text_len);
        lemma_with_span(
            map_of_replacements(front),
            reach(front),
            total_len(front),
            (last.start, last.end),
            last.len as int,
        );
    }
}

/// Whether a text of `text_len` bytes with `replacements` made in it fits
/// the address space.
pub fn check_replacements_fit(replacements: &Vec<Replacement>, text_len: usize) -> (fit: bool)
    ensures
        fit == replacements_fit(replacements@, text_len as int),
{
    let limit = isize::MAX as usize;
    if text_len > limit {
        proof {
            lemma_total_len_grows(replacements@, 0);
            assert(replacements@.take(0) =~= Seq::empty());
        }
        return false;
    }
    let mut total: usize = text_len;
    let mut i: usize = 0;
    proof {
        assert(replacements@.take(0) =~= Seq::empty());
    }
    while i < replacements.len()
        invariant
            i <= replacements@.len(),
            limit == isize::MAX,
            total == text_len + total_len(replacements@.take(i as int)),
            total <= limit,
        decreases replacements@.len() - i,
    {
        proof {
            assert(replacements@.take(i + 1).drop_last() =~= replacements@.take(i as int));
            lemma_total_len_grows(replacements@, i + 1);
        }
        let len = replacements[i].len;
        if len > limit - total {
            return false;
        }
        total = total + len;
        i = i + 1;
    }
    proof {
        assert(replacements@.take(i as int) =~= replacements@);
    }
    true
}

/// The first replacements put no more bytes into the output than all.
proof fn lemma_total_len_grows(replacements: Seq<Replacement>, k: int)
    requires
        0 <= k <= replacements.len(),
    ensures
        0 <= total_len(replacements.take(k)) <= total_len(replacements),
    decreases replacements.len() - k,
{
    if k < replacements.len() {
        lemma_total_len_grows(replacements, k + 1);
        assert(replacements.take(k + 1).drop_last() =~= replacements.take(k));
    } else {
        assert(replacements.take(k) =~= replacements);
    }
    lemma_total_len_at_least_zero(replacements.take(k));
}

/// The offset map of a text of `text_len` bytes in which `replacements`
/// were made.
///
/// The text with its replacements has to fit the address space.
pub fn offsets_of_replacements(replacements: &Vec<Replacement>, text_len: usize) -> (map: (
    Vec<usize>,
    Vec<i64>,
))
    requires
        successive(replacements@, text_len as int),
        replacements_fit(replacements@, text_len as int),
    ensures
        (OffsetMap { offsets: map.0@, diffs: map.1@ }) == map_of_replacements(replacements@),
        is_offset_map(map.0@, map.1@),
        is_gentle(map.0@, map.1@),
{
    let mut offsets: Vec<usize> = Vec::new();
    let mut diffs: Vec<i64> = Vec::new();
    let mut k: usize = 0;
    proof {
        assert(replacements@.take(0) =~= Seq::empty());
    }
    while k < replacements.len()
        invariant
            k <= replacements@.len(),
            successive(replacements@, text_len as int),
            replacements_fit(replacements@, text_len as int),
            (OffsetMap { offsets: offsets@, diffs: diffs@ }) == map_of_replacements(
                replacements@.take(k as int),
            ),
        decreases replacements@.len() - k,
    {
        let ghost front = replacements@.take(k as int);
        let ghost m = map_of_replacements(front);
        let ghost end = reach(front);
        let ghost grown = total_len(front);
        let replacement = replacements[k];
        let input_start = replacement.start;
        let input_end = replacement.end;
        let replacement_len = replacement.len;
        let ghost r = replacement_len as int;
        let ghost span = (input_start, input_end);
        proof {
            lemma_successive_take(replacements@, text_len as int, k as int);
            lemma_built(front, text_len as int);
            assert(input_start <= input_end <= text_len);
            assert(replacements@.take(k + 1).drop_last() =~= front);
            assert(replacements@.take(k + 1).last() == replacement);
            assert(map_of_replacements(replacements@.take(k + 1)) == with_span(m, span, r));
        }
        let input_len = input_end - input_start;
        let prev_diff: i64 = if diffs.len() > 0 {
            diffs[diffs.len() - 1]
        } else {
            0
        };
        assert(prev_diff == last_diff(m.diffs));
        if input_len > replacement_len {
            let diff_len = input_len - replacement_len;
            proof {
                lemma_shorter(m, end, grown, span, r);
            }
            let offset = (input_end as i128 - diff_len as i128 - prev_diff as i128) as usize;
            let diff = (prev_diff as i128 + diff_len as i128) as i64;
            add_offset_diff(&mut offsets, &mut diffs, offset, diff);
        } else if input_len < replacement_len {
            let extra = replacement_len - input_len;
            let output_start = (input_end as i128 - prev_diff as i128) as usize;
            let mut extra_idx: usize = 0;
            while extra_idx < extra
                invariant
                    extra_idx <= extra,
                    extra == r - (input_end - input_start),
                    input_start <= input_end,
                    span == (input_start, input_end),
                    prev_diff == last_diff(m.diffs),
                    -grown <= prev_diff <= input_end,
                    0 <= grown,
                    input_end + grown + r <= isize::MAX,
                    output_start == input_end - prev_diff,
                    (OffsetMap { offsets: offsets@, diffs: diffs@ }) == with_inserted(
                        m,
                        input_end - prev_diff,
                        prev_diff as int,
                        extra_idx as nat,
                    ),
                decreases extra - extra_idx,
            {
                let offset = output_start + extra_idx;
                let diff = (prev_diff as i128 - extra_idx as i128 - 1) as i64;
                add_offset_diff(&mut offsets, &mut diffs, offset, diff);
                extra_idx = extra_idx + 1;
            }
        }
        k = k + 1;
    }
    proof {
        assert(replacements@.take(k as int) =~= replacements@);
        lemma_built(replacements@, text_len as int);
    }
    (offsets, diffs)
}

} // verus!
