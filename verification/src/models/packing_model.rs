//! The mathematical model of packing: what the windows and records of a
//! list of sequences are, and what packing yields.

use vstd::prelude::*;

use crate::models::packing::{PackError, PackedBatchView, IGNORE_INDEX};

verus! {

/// A window's tokens followed by enough pad tokens to reach `max_length`.
pub open spec fn padded_ids(window: Seq<u32>, max_length: nat, pad_token_id: u32) -> Seq<u32> {
    window + Seq::new((max_length - window.len()) as nat, |i: int| pad_token_id)
}

/// `occupied` ones followed by zeros, `max_length` entries in all.
pub open spec fn prefix_mask(occupied: nat, max_length: nat) -> Seq<u32> {
    Seq::new(max_length, |i: int| if i < occupied { 1u32 } else { 0u32 })
}

/// `max_length` copies of the ignore label.
pub open spec fn ignored_labels(max_length: nat) -> Seq<i32> {
    Seq::new(max_length, |i: int| IGNORE_INDEX)
}

/// The records made from `windows`, one per window and in the same order.
pub open spec fn records_of(windows: Seq<Seq<u32>>, max_length: nat, pad_token_id: u32) -> PackedBatchView {
    PackedBatchView {
        input_ids: Seq::new(windows.len(), |k: int| padded_ids(windows[k], max_length, pad_token_id)),
        attention_mask: Seq::new(windows.len(), |k: int| prefix_mask(windows[k].len(), max_length)),
        labels: Seq::new(windows.len(), |k: int| ignored_labels(max_length)),
    }
}

impl PackedBatchView {
    /// The batch with one more record, built from `window`.
    pub open spec fn with_window(self, window: Seq<u32>, max_length: nat, pad_token_id: u32) -> PackedBatchView {
        PackedBatchView {
            input_ids: self.input_ids.push(padded_ids(window, max_length, pad_token_id)),
            attention_mask: self.attention_mask.push(prefix_mask(window.len(), max_length)),
            labels: self.labels.push(ignored_labels(max_length)),
        }
    }

    /// The batch without records.
    pub open spec fn empty() -> PackedBatchView {
        PackedBatchView { input_ids: Seq::empty(), attention_mask: Seq::empty(), labels: Seq::empty() }
    }

    /// The records of `self` followed by those of `other`.
    pub open spec fn concat(self, other: PackedBatchView) -> PackedBatchView {
        PackedBatchView {
            input_ids: self.input_ids + other.input_ids,
            attention_mask: self.attention_mask + other.attention_mask,
            labels: self.labels + other.labels,
        }
    }
}

/// State of the greedy accumulation: the windows already closed and the one still open.
pub struct Fill {
    pub closed: Seq<Seq<u32>>,
    pub open: Seq<u32>,
}

/// Greedy accumulation over `seqs` in order: a sequence joins the open window
/// while the window stays within `max_length`; otherwise the open window is
/// closed and the sequence starts the next one.
pub open spec fn greedy_fill(seqs: Seq<Seq<u32>>, max_length: nat) -> Fill
    decreases seqs.len(),
{
    if seqs.len() == 0 {
        Fill { closed: Seq::empty(), open: Seq::empty() }
    } else {
        let before = greedy_fill(seqs.drop_last(), max_length);
        let next = seqs.last();
        if before.open.len() + next.len() <= max_length {
            Fill { closed: before.closed, open: before.open + next }
        } else {
            Fill { closed: before.closed.push(before.open), open: next }
        }
    }
}

/// The windows that greedy accumulation produces for `seqs`: the closed ones,
/// then the open one unless it is empty.
pub open spec fn greedy_windows(seqs: Seq<Seq<u32>>, max_length: nat) -> Seq<Seq<u32>> {
    let fill = greedy_fill(seqs, max_length);
    if fill.open.len() > 0 {
        fill.closed.push(fill.open)
    } else {
        fill.closed
    }
}

/// Every sequence fits in one record.
pub open spec fn all_fit(seqs: Seq<Seq<u32>>, max_length: nat) -> bool {
    forall|i: int| 0 <= i < seqs.len() ==> (#[trigger] seqs[i]).len() <= max_length
}

/// `i` is the position of the first sequence that is longer than `max_length`.
pub open spec fn is_first_oversized(seqs: Seq<Seq<u32>>, max_length: nat, i: int) -> bool {
    &&& 0 <= i < seqs.len()
    &&& seqs[i].len() > max_length
    &&& forall|j: int| 0 <= j < i ==> (#[trigger] seqs[j]).len() <= max_length
}

/// Position of the first sequence that is longer than `max_length`, where there is one.
pub open spec fn first_oversized(seqs: Seq<Seq<u32>>, max_length: nat) -> int {
    choose|i: int| is_first_oversized(seqs, max_length, i)
}

/// The error reported for `seqs`: it names the first oversized sequence's length.
pub open spec fn oversized_error(seqs: Seq<Seq<u32>>, max_length: usize) -> PackError {
    PackError::OversizedSequence {
        length: seqs[first_oversized(seqs, max_length as nat)].len() as usize,
        max_length,
    }
}

/// What packing one group yields: the records of its greedy windows, or the
/// error for its first oversized sequence.
pub open spec fn group_outcome(seqs: Seq<Seq<u32>>, max_length: usize, pad_token_id: u32) -> Result<
    PackedBatchView,
    PackError,
> {
    if all_fit(seqs, max_length as nat) {
        Ok(records_of(greedy_windows(seqs, max_length as nat), max_length as nat, pad_token_id))
    } else {
        Err(oversized_error(seqs, max_length))
    }
}

/// The distinct lengths that occur in `seqs`, in order of first appearance.
pub open spec fn distinct_lengths(seqs: Seq<Seq<u32>>) -> Seq<nat>
    decreases seqs.len(),
{
    if seqs.len() == 0 {
        Seq::empty()
    } else {
        let earlier = distinct_lengths(seqs.drop_last());
        if earlier.contains(seqs.last().len()) {
            earlier
        } else {
            earlier.push(seqs.last().len())
        }
    }
}

/// The sequences of `seqs` that have exactly `length` tokens, in their order in `seqs`.
pub open spec fn of_length(seqs: Seq<Seq<u32>>, length: nat) -> Seq<Seq<u32>> {
    seqs.filter(|s: Seq<u32>| s.len() == length)
}

/// `seqs` partitioned by exact length: one bucket per distinct length, the
/// buckets in order of first appearance, each keeping the order of `seqs`.
pub open spec fn length_buckets(seqs: Seq<Seq<u32>>) -> Seq<Seq<Seq<u32>>> {
    let lengths = distinct_lengths(seqs);
    Seq::new(lengths.len(), |k: int| of_length(seqs, lengths[k]))
}

/// The greedy windows of every group, group after group.
pub open spec fn packed_windows(groups: Seq<Seq<Seq<u32>>>, max_length: nat) -> Seq<Seq<u32>>
    decreases groups.len(),
{
    if groups.len() == 0 {
        Seq::empty()
    } else {
        packed_windows(groups.drop_last(), max_length) + greedy_windows(groups.last(), max_length)
    }
}

/// What packing `seqs` yields. A zero record width is rejected; otherwise the
/// first sequence that is longer than a record is reported; otherwise the
/// sequences are bucketed by length and each bucket is packed greedily, the
/// buckets in order of first appearance.
pub open spec fn pack_outcome(seqs: Seq<Seq<u32>>, max_length: usize, pad_token_id: u32) -> Result<
    PackedBatchView,
    PackError,
> {
    if max_length == 0 {
        Err(PackError::InvalidConfiguration)
    } else if !all_fit(seqs, max_length as nat) {
        Err(oversized_error(seqs, max_length))
    } else {
        Ok(
            records_of(
                packed_windows(length_buckets(seqs), max_length as nat),
                max_length as nat,
                pad_token_id,
            ),
        )
    }
}

/// The outcome of packing each group on its own.
pub open spec fn group_outcomes(groups: Seq<Seq<Seq<u32>>>, max_length: usize, pad_token_id: u32) -> Seq<
    Result<PackedBatchView, PackError>,
> {
    Seq::new(groups.len(), |k: int| group_outcome(groups[k], max_length, pad_token_id))
}

/// All-or-nothing merge of per-group outcomes: the first error in group
/// order, or else every group's records, concatenated in group order.
pub open spec fn merged_outcome(outcomes: Seq<Result<PackedBatchView, PackError>>) -> Result<
    PackedBatchView,
    PackError,
>
    decreases outcomes.len(),
{
    if outcomes.len() == 0 {
        Ok(PackedBatchView::empty())
    } else {
        match merged_outcome(outcomes.drop_last()) {
            Err(e) => Err(e),
            Ok(merged) => match outcomes.last() {
                Err(e) => Err(e),
                Ok(group) => Ok(merged.concat(group)),
            },
        }
    }
}

/// Number of tokens in `seqs`, all sequences together.
pub open spec fn total_tokens(seqs: Seq<Seq<u32>>) -> nat
    decreases seqs.len(),
{
    if seqs.len() == 0 {
        0
    } else {
        total_tokens(seqs.drop_last()) + seqs.last().len()
    }
}

/// The tokens of `seqs`, one sequence after the other.
pub open spec fn joined(seqs: Seq<Seq<u32>>) -> Seq<u32>
    decreases seqs.len(),
{
    if seqs.len() == 0 {
        Seq::empty()
    } else {
        joined(seqs.drop_last()) + seqs.last()
    }
}

/// Sum of the entries of one mask.
pub open spec fn mask_sum(mask: Seq<u32>) -> nat
    decreases mask.len(),
{
    if mask.len() == 0 {
        0
    } else {
        mask_sum(mask.drop_last()) + mask.last() as nat
    }
}

/// Sum of the entries of all masks.
pub open spec fn attended_tokens(masks: Seq<Seq<u32>>) -> nat
    decreases masks.len(),
{
    if masks.len() == 0 {
        0
    } else {
        attended_tokens(masks.drop_last()) + mask_sum(masks.last())
    }
}

/// Number of tokens in `groups`, all groups together.
pub open spec fn grand_total(groups: Seq<Seq<Seq<u32>>>) -> nat
    decreases groups.len(),
{
    if groups.len() == 0 {
        0
    } else {
        grand_total(groups.drop_last()) + total_tokens(groups.last())
    }
}

/// Every window holds at least one token and at most `max_length`.
pub open spec fn windows_bounded(windows: Seq<Seq<u32>>, max_length: nat) -> bool {
    forall|k: int| 0 <= k < windows.len() ==> 0 < (#[trigger] windows[k]).len() <= max_length
}

/// Every sequence is exactly `length` long.
pub open spec fn all_of_length(seqs: Seq<Seq<u32>>, length: nat) -> bool {
    forall|r: int| 0 <= r < seqs.len() ==> (#[trigger] seqs[r]).len() == length
}

/// The batch in which every record is one full sequence of `seqs`.
pub open spec fn full_records(seqs: Seq<Seq<u32>>, max_length: nat) -> PackedBatchView {
    PackedBatchView {
        input_ids: seqs,
        attention_mask: Seq::new(seqs.len(), |r: int| prefix_mask(max_length, max_length)),
        labels: Seq::new(seqs.len(), |r: int| ignored_labels(max_length)),
    }
}


/// Shape of a batch: the three lists hold one entry per record, and every
/// entry is `max_length` long.
pub open spec fn has_fixed_width(batch: PackedBatchView, max_length: nat) -> bool {
    &&& batch.input_ids.len() == batch.attention_mask.len()
    &&& batch.input_ids.len() == batch.labels.len()
    &&& forall|r: int| 0 <= r < batch.input_ids.len() ==> (#[trigger] batch.input_ids[r]).len() == max_length
    &&& forall|r: int|
        0 <= r < batch.attention_mask.len() ==> (#[trigger] batch.attention_mask[r]).len() == max_length
    &&& forall|r: int| 0 <= r < batch.labels.len() ==> (#[trigger] batch.labels[r]).len() == max_length
}

/// The masks of `batch` mark the tokens of `windows`: record `r` was made
/// from window `r`, which holds between one and `max_length` tokens; its mask
/// is one on the window's length and zero after it, so the ones count the
/// window's tokens; its ids are the window's tokens under the ones and the
/// pad token under the zeros.
pub open spec fn masks_mark_tokens(
    batch: PackedBatchView,
    windows: Seq<Seq<u32>>,
    max_length: nat,
    pad_token_id: u32,
) -> bool {
    &&& batch.attention_mask.len() == windows.len()
    &&& batch.input_ids.len() == windows.len()
    &&& forall|r: int|
        0 <= r < windows.len() ==> {
            &&& 0 < (#[trigger] windows[r]).len() <= max_length
            &&& mask_sum(batch.attention_mask[r]) == windows[r].len()
            &&& forall|i: int|
                0 <= i < max_length ==> (#[trigger] batch.attention_mask[r][i]) == if i < windows[r].len() {
                    1u32
                } else {
                    0u32
                }
            &&& forall|i: int|
                0 <= i < max_length ==> (#[trigger] batch.input_ids[r][i]) == if i < windows[r].len() {
                    windows[r][i]
                } else {
                    pad_token_id
                }
        }
}

/// Every label of every record is the ignore label.
pub open spec fn labels_ignored(batch: PackedBatchView) -> bool {
    forall|r: int, i: int|
        0 <= r < batch.labels.len() && 0 <= i < batch.labels[r].len() ==> #[trigger] batch.labels[r][i]
            == IGNORE_INDEX
}

} // verus!
