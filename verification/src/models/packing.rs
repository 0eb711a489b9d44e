use rayon::iter::{IntoParallelRefIterator, ParallelIterator};
use std::collections::HashMap;
use vstd::prelude::*;

use crate::models::packing_laws::{
    lemma_dispatch_outcome, lemma_first_oversized_unique, lemma_full_sequences_pack_to_themselves,
    lemma_labels_are_ignored, lemma_masks_mark_real_tokens, lemma_merge_keeps_first_error,
    lemma_of_length_push, lemma_one_token_too_long_fails, lemma_packing_covers_every_token,
    lemma_records_have_fixed_width, lemma_unseen_length_is_empty,
};
use crate::models::packing_model::{
    all_fit, attended_tokens, distinct_lengths, full_records, greedy_fill, group_outcome,
    group_outcomes, has_fixed_width, ignored_labels, is_first_oversized, labels_ignored,
    length_buckets, masks_mark_tokens, merged_outcome, of_length, pack_outcome, packed_windows,
    padded_ids, prefix_mask, records_of, total_tokens,
};

verus! {

/// Label value that marks a position as excluded from the loss.
pub const IGNORE_INDEX: i32 = -100;

/// Why a packing request was rejected.
#[derive(Debug, Clone, Copy, PartialEq, Eq)]
pub enum PackError {
    /// A single sequence is longer than a record can hold.
    OversizedSequence { length: usize, max_length: usize },
    /// The record width is zero.
    InvalidConfiguration,
}

/// Fixed-width training records, stored as three parallel lists.
#[derive(Debug, PartialEq, Eq)]
pub struct PackedBatch {
    pub input_ids: Vec<Vec<u32>>,
    pub attention_mask: Vec<Vec<u32>>,
    pub labels: Vec<Vec<i32>>,
}

/// Mathematical content of a [`PackedBatch`].
#[verifier::ext_equal]
pub struct PackedBatchView {
    pub input_ids: Seq<Seq<u32>>,
    pub attention_mask: Seq<Seq<u32>>,
    pub labels: Seq<Seq<i32>>,
}

/// The rows of a list of vectors, each taken as a plain sequence.
pub open spec fn rows<T>(v: Seq<Vec<T>>) -> Seq<Seq<T>> {
    Seq::new(v.len(), |i: int| v[i]@)
}

impl View for PackedBatch {
    type V = PackedBatchView;

    open spec fn view(&self) -> PackedBatchView {
        PackedBatchView {
            input_ids: rows(self.input_ids@),
            attention_mask: rows(self.attention_mask@),
            labels: rows(self.labels@),
        }
    }
}

/// The mathematical content of a packing result.
pub open spec fn outcome_view(outcome: Result<PackedBatch, PackError>) -> Result<PackedBatchView, PackError> {
    match outcome {
        Ok(batch) => Ok(batch@),
        Err(e) => Err(e),
    }
}

/// The mathematical content of a list of packing results.
pub open spec fn outcome_views(outcomes: Seq<Result<PackedBatch, PackError>>) -> Seq<
    Result<PackedBatchView, PackError>,
> {
    Seq::new(outcomes.len(), |k: int| outcome_view(outcomes[k]))
}

/// The content of a list of groups, each group taken as a list of plain sequences.
pub open spec fn group_rows(groups: Seq<Vec<Vec<u32>>>) -> Seq<Seq<Seq<u32>>> {
    Seq::new(groups.len(), |k: int| rows(groups[k]@))
}

impl PackedBatch {
    /// An empty batch.
    pub fn new() -> (batch: Self)
        ensures
            batch@ == PackedBatchView::empty(),
    {
        let batch = Self { input_ids: Vec::new(), attention_mask: Vec::new(), labels: Vec::new() };
        assert(batch@ =~= PackedBatchView::empty());
        batch
    }

    /// The three lists, in the order ids, mask, labels.
    pub fn to_tuple(self) -> (parts: (Vec<Vec<u32>>, Vec<Vec<u32>>, Vec<Vec<i32>>))
        ensures
            parts.0 == self.input_ids,
            parts.1 == self.attention_mask,
            parts.2 == self.labels,
    {
        (self.input_ids, self.attention_mask, self.labels)
    }
}

/// Closes a window: pads it to `max_length` and appends the record to `result`.
pub fn add_padded_batch(
    result: &mut PackedBatch,
    batch: Vec<u32>,
    max_length: usize,
    pad_token_id: u32,
) -> (outcome: Result<(), PackError>)
    ensures
        batch@.len() > max_length ==> outcome == Err::<(), PackError>(
            PackError::OversizedSequence { length: batch.len(), max_length },
        ) && final(result)@ == old(result)@,
        batch@.len() <= max_length ==> outcome.is_ok() && final(result)@ == old(result)@.with_window(
            batch@,
            max_length as nat,
            pad_token_id,
        ),
{
    if batch.len() > max_length {
        return Err(PackError::OversizedSequence { length: batch.len(), max_length });
    }
    let attention_length = batch.len();
    let mut batch = batch;
    let ghost window = batch@;
    let padding_length: usize = max_length - attention_length;
    let mut padding = vec![pad_token_id; padding_length];
    batch.append(&mut padding);
    let mut attention_mask = vec![1u32; attention_length];
    let mut zeros = vec![0u32; padding_length];
    attention_mask.append(&mut zeros);
    let labels = vec![IGNORE_INDEX; max_length];
    assert(batch@ =~= padded_ids(window, max_length as nat, pad_token_id));
    assert(attention_mask@ =~= prefix_mask(window.len(), max_length as nat));
    assert(labels@ =~= ignored_labels(max_length as nat));
    result.input_ids.push(batch);
    result.attention_mask.push(attention_mask);
    result.labels.push(labels);
    assert(result@.input_ids =~= old(result)@.input_ids.push(padded_ids(window, max_length as nat, pad_token_id)));
    assert(result@.attention_mask =~= old(result)@.attention_mask.push(prefix_mask(window.len(), max_length as nat)));
    assert(result@.labels =~= old(result)@.labels.push(ignored_labels(max_length as nat)));
    Ok(())
}

/// Packs one group of sequences, in order, into fixed-width records.
pub fn pack_length_group(sequences: &[Vec<u32>], max_length: usize, pad_token_id: u32) -> (outcome: Result<
    PackedBatch,
    PackError,
>)
    ensures
        outcome_view(outcome) == group_outcome(rows(sequences@), max_length, pad_token_id),
{
    let ghost seqs = rows(sequences@);
    let ghost max = max_length as nat;
    let mut result = PackedBatch::new();
    let mut current_batch: Vec<u32> = Vec::new();
    let mut i: usize = 0;
    assert(seqs.take(0) =~= Seq::<Seq<u32>>::empty());
    assert(result@ =~= records_of(Seq::empty(), max, pad_token_id));
    while i < sequences.len()
        invariant
            seqs == rows(sequences@),
            max == max_length as nat,
            i <= sequences.len(),
            current_batch@ == greedy_fill(seqs.take(i as int), max).open,
            result@ == records_of(greedy_fill(seqs.take(i as int), max).closed, max, pad_token_id),
            current_batch@.len() <= max ==> all_fit(seqs.take(i as int), max),
            current_batch@.len() > max ==> is_first_oversized(seqs, max, i - 1) && current_batch@ == seqs[i - 1],
        decreases sequences.len() - i,
    {
        let seq = &sequences[i];
        let ghost before = greedy_fill(seqs.take(i as int), max);
        proof {
            assert(seqs.take(i + 1).drop_last() =~= seqs.take(i as int));
            assert(seqs.take(i + 1).last() == seq@);
        }
        if current_batch.len() <= max_length && seq.len() <= max_length - current_batch.len() {
            extend_tokens(&mut current_batch, seq);
            proof {
                assert forall|j: int| 0 <= j < i + 1 implies (#[trigger] seqs.take(i + 1)[j]).len() <= max by {
                    if j < i {
                        assert(seqs.take(i as int)[j] == seqs.take(i + 1)[j]);
                    }
                }
            }
        } else {
            match add_padded_batch(&mut result, current_batch, max_length, pad_token_id) {
                Ok(()) => {},
                Err(e) => {
                    proof {
                        lemma_first_oversized_unique(seqs, max, i - 1);
                    }
                    return Err(e);
                },
            }
            current_batch = seq.clone();
            proof {
                assert(current_batch@ =~= seq@);
                assert(before.open.len() <= max);
                assert(result@ =~= records_of(before.closed.push(before.open), max, pad_token_id));
                if seq@.len() > max {
                    assert forall|j: int| 0 <= j < i implies (#[trigger] seqs[j]).len() <= max by {
                        assert(seqs.take(i as int)[j] == seqs[j]);
                    }
                } else {
                    assert forall|j: int| 0 <= j < i + 1 implies (#[trigger] seqs.take(i + 1)[j]).len() <= max by {
                        if j < i {
                            assert(seqs.take(i as int)[j] == seqs.take(i + 1)[j]);
                        }
                    }
                }
            }
        }
        i += 1;
    }
    assert(seqs.take(i as int) =~= seqs);
    let ghost fill = greedy_fill(seqs, max);
    if !current_batch.is_empty() {
        match add_padded_batch(&mut result, current_batch, max_length, pad_token_id) {
            Ok(()) => {},
            Err(e) => {
                proof {
                    lemma_first_oversized_unique(seqs, max, i - 1);
                }
                return Err(e);
            },
        }
        assert(result@ =~= records_of(fill.closed.push(fill.open), max, pad_token_id));
    }
    Ok(result)
}

/// Appends a copy of `tokens` to `window`.
fn extend_tokens(window: &mut Vec<u32>, tokens: &Vec<u32>)
    ensures
        final(window)@ == old(window)@ + tokens@,
{
    window.extend_from_slice(tokens.as_slice());
    assert(window@ =~= old(window)@ + tokens@);
}

/// `positions` sends each length of `lengths` to its place in `lengths`, and holds no other key.
spec fn places_of(positions: Map<usize, usize>, lengths: Seq<nat>) -> bool {
    &&& forall|k: int|
        0 <= k < lengths.len() ==> (#[trigger] lengths[k]) <= usize::MAX && positions.contains_key(
            lengths[k] as usize,
        ) && positions[lengths[k] as usize] == k
    &&& forall|length: usize| #[trigger]
        positions.contains_key(length) ==> lengths.contains(length as nat)
}

/// Partitions `sequences` by exact length.
pub fn bucket_by_length(sequences: Vec<Vec<u32>>) -> (groups: Vec<Vec<Vec<u32>>>)
    ensures
        group_rows(groups@) == length_buckets(rows(sequences@)),
{
    broadcast use vstd::std_specs::hash::group_hash_axioms;

    let ghost seqs = rows(sequences@);
    let mut groups: Vec<Vec<Vec<u32>>> = Vec::new();
    let mut positions: HashMap<usize, usize> = HashMap::new();
    assert(seqs.take(0) =~= Seq::<Seq<u32>>::empty());
    assert(group_rows(groups@) =~= length_buckets(seqs.take(0)));
    for seq in iter: sequences
        invariant
            iter.seq() == sequences@,
            seqs == rows(sequences@),
            groups@.len() == distinct_lengths(seqs.take(iter.index())).len(),
            group_rows(groups@) == length_buckets(seqs.take(iter.index())),
            places_of(positions@, distinct_lengths(seqs.take(iter.index()))),
    {
        let ghost i = iter.index();
        let ghost earlier = seqs.take(i);
        let ghost lengths = distinct_lengths(earlier);
        let ghost old_groups = groups@;
        proof {
            assert(seqs.take(i + 1) =~= earlier.push(seq@));
            assert(seqs.take(i + 1).drop_last() =~= earlier);
            assert forall|k: int| 0 <= k < lengths.len() implies of_length(earlier.push(seq@), #[trigger] lengths[k])
                == if seq@.len() == lengths[k] {
                of_length(earlier, lengths[k]).push(seq@)
            } else {
                of_length(earlier, lengths[k])
            } by {
                lemma_of_length_push(earlier, seq@, lengths[k]);
            }
            assert forall|k: int| 0 <= k < lengths.len() implies rows(#[trigger] old_groups[k]@) == of_length(
                earlier,
                lengths[k],
            ) by {
                assert(group_rows(old_groups)[k] == length_buckets(earlier)[k]);
            }
        }
        let length = seq.len();
        match positions.get(&length) {
            Some(position) => {
                let position = *position;
                proof {
                    let k = choose|k: int| 0 <= k < lengths.len() && lengths[k] == length as nat;
                    assert(lengths[k] == length);
                    assert(position == k);
                }
                groups[position].push(seq);
                proof {
                    let after = distinct_lengths(seqs.take(i + 1));
                    assert(after == lengths);
                    assert(rows(groups@[position as int]@) =~= rows(old_groups[position as int]@).push(seq@));
                    assert forall|k: int| 0 <= k < after.len() implies #[trigger] group_rows(groups@)[k] == length_buckets(
                        seqs.take(i + 1),
                    )[k] by {
                        assert(lengths[k] == lengths[k]);
                        if k != position {
                            assert(groups@[k] == old_groups[k]);
                            assert(lengths[position as int] == length);
                        }
                    }
                    assert(group_rows(groups@) =~= length_buckets(seqs.take(i + 1)));
                }
            },
            None => {
                proof {
                    if lengths.contains(length as nat) {
                        let k = choose|k: int| 0 <= k < lengths.len() && lengths[k] == length as nat;
                        assert(lengths[k] == length);
                    }
                    lemma_unseen_length_is_empty(earlier, length as nat);
                    lemma_of_length_push(earlier, seq@, length as nat);
                }
                positions.insert(length, groups.len());
                let mut group: Vec<Vec<u32>> = Vec::new();
                group.push(seq);
                groups.push(group);
                proof {
                    let after = distinct_lengths(seqs.take(i + 1));
                    assert(after == lengths.push(length as nat));
                    assert(rows(group@) =~= Seq::<Seq<u32>>::empty().push(seq@));
                    assert forall|k: int| 0 <= k < after.len() implies #[trigger] group_rows(groups@)[k] == length_buckets(
                        seqs.take(i + 1),
                    )[k] by {
                        if k < lengths.len() {
                            assert(lengths[k] == after[k]);
                            assert(groups@[k] == old_groups[k]);
                        }
                    }
                    assert(group_rows(groups@) =~= length_buckets(seqs.take(i + 1)));
                    assert forall|k: int| 0 <= k < after.len() implies (#[trigger] after[k]) <= usize::MAX
                        && positions@.contains_key(after[k] as usize) && positions@[after[k] as usize] == k by {
                        if k < lengths.len() {
                            assert(lengths[k] == after[k]);
                        }
                    }
                    assert forall|l: usize| #[trigger] positions@.contains_key(l) implies after.contains(l as nat) by {
                        if l == length {
                            assert(after[lengths.len() as int] == length);
                        } else {
                            let k = choose|k: int| 0 <= k < lengths.len() && lengths[k] == l as nat;
                            assert(after[k] == l);
                        }
                    }
                }
            },
        }
    }
    assert(seqs.take(sequences@.len() as int) =~= seqs);
    groups
}

/// Packs every group with [`pack_length_group`], the groups spread over
/// rayon's thread pool.
///
/// Trusted: `par_iter().map(..).collect()` of rayon, on a vector and into a
/// vector. The contract claims that the result holds one entry per group,
/// in the order of `groups`, and that each entry is what the mapped function
/// returns for that group.
#[verifier::external_body]
fn pack_groups(groups: &Vec<Vec<Vec<u32>>>, max_length: usize, pad_token_id: u32) -> (outcomes: Vec<
    Result<PackedBatch, PackError>,
>)
    ensures
        outcome_views(outcomes@) == group_outcomes(group_rows(groups@), max_length, pad_token_id),
{
    groups.par_iter().map(|group| pack_length_group(group, max_length, pad_token_id)).collect()
}

/// Merges per-group results into one batch, all or nothing.
pub fn merge_groups(outcomes: Vec<Result<PackedBatch, PackError>>) -> (merged: Result<PackedBatch, PackError>)
    ensures
        outcome_view(merged) == merged_outcome(outcome_views(outcomes@)),
{
    let ghost views = outcome_views(outcomes@);
    let mut result = PackedBatch::new();
    assert(views.take(0) =~= Seq::<Result<PackedBatchView, PackError>>::empty());
    for outcome in iter: outcomes
        invariant
            iter.seq() == outcomes@,
            views == outcome_views(outcomes@),
            merged_outcome(views.take(iter.index())) == Ok::<PackedBatchView, PackError>(result@),
    {
        let ghost i = iter.index();
        proof {
            assert(views.take(i + 1).drop_last() =~= views.take(i));
            assert(views.take(i + 1).last() == outcome_view(outcome));
        }
        match outcome {
            Ok(group) => {
                let ghost before = result@;
                let mut group = group;
                result.input_ids.append(&mut group.input_ids);
                result.attention_mask.append(&mut group.attention_mask);
                result.labels.append(&mut group.labels);
                assert(result@ =~= before.concat(outcome_view(outcome)->Ok_0));
            },
            Err(e) => {
                proof {
                    lemma_merge_keeps_first_error(views, i + 1);
                }
                return Err(e);
            },
        }
    }
    assert(views.take(outcomes@.len() as int) =~= views);
    Ok(result)
}

/// Packs `sequences` into records of `max_length` tokens each.
///
/// The sequences are bucketed by exact length, the buckets in order of
/// first appearance; each bucket is packed greedily on its own, the buckets
/// spread over the thread pool; the records of all buckets are then joined
/// in bucket order. A `max_length` of zero is rejected. A sequence longer
/// than `max_length` fails the whole call, and the error names the first
/// such sequence of `sequences`.
pub fn pack_sequences(sequences: Vec<Vec<u32>>, max_length: usize, pad_token_id: u32) -> (outcome: Result<
    PackedBatch,
    PackError,
>)
    ensures
        outcome_view(outcome) == pack_outcome(rows(sequences@), max_length, pad_token_id),
        outcome matches Ok(batch) ==> {
            &&& has_fixed_width(batch@, max_length as nat)
            &&& masks_mark_tokens(
                batch@,
                packed_windows(length_buckets(rows(sequences@)), max_length as nat),
                max_length as nat,
                pad_token_id,
            )
            &&& labels_ignored(batch@)
            &&& attended_tokens(batch@.attention_mask) == total_tokens(rows(sequences@))
        },
        max_length > 0 && sequences@.len() == 1 && sequences@[0]@.len() == max_length + 1 ==> outcome == Err::<
            PackedBatch,
            PackError,
        >(PackError::OversizedSequence { length: sequences@[0].len(), max_length }),
        max_length > 0 && sequences@.len() == 1 && sequences@[0]@.len() == max_length ==> outcome_view(outcome)
            == Ok::<PackedBatchView, PackError>(full_records(rows(sequences@), max_length as nat)),
{
    if max_length == 0 {
        return Err(PackError::InvalidConfiguration);
    }
    let ghost seqs = rows(sequences@);
    let groups = bucket_by_length(sequences);
    let outcomes = pack_groups(&groups, max_length, pad_token_id);
    let outcome = merge_groups(outcomes);
    proof {
        lemma_dispatch_outcome(seqs, max_length, pad_token_id);
        lemma_records_have_fixed_width(seqs, max_length, pad_token_id);
        lemma_masks_mark_real_tokens(seqs, max_length, pad_token_id);
        lemma_labels_are_ignored(seqs, max_length, pad_token_id);
        lemma_packing_covers_every_token(seqs, max_length, pad_token_id);
        if seqs.len() == 1 {
            assert(seqs =~= seq![seqs[0]]);
            if seqs[0].len() == max_length + 1 {
                lemma_one_token_too_long_fails(seqs[0], max_length, pad_token_id);
            }
            if seqs[0].len() == max_length {
                lemma_full_sequences_pack_to_themselves(seqs, max_length, pad_token_id);
            }
        }
    }
    outcome
}

/// Packs `sequences` and hands back the three lists: ids, mask, labels.
pub fn pack_dataset(sequences: Vec<Vec<u32>>, max_length: usize, pad_token_id: u32) -> (outcome: Result<
    (Vec<Vec<u32>>, Vec<Vec<u32>>, Vec<Vec<i32>>),
    PackError,
>)
    ensures
        match outcome {
            Ok(parts) => pack_outcome(rows(sequences@), max_length, pad_token_id) == Ok::<
                PackedBatchView,
                PackError,
            >(
                PackedBatchView {
                    input_ids: rows(parts.0@),
                    attention_mask: rows(parts.1@),
                    labels: rows(parts.2@),
                },
            ),
            Err(e) => pack_outcome(rows(sequences@), max_length, pad_token_id) == Err::<
                PackedBatchView,
                PackError,
            >(e),
        },
{
    match pack_sequences(sequences, max_length, pad_token_id) {
        Ok(batch) => Ok(batch.to_tuple()),
        Err(e) => Err(e),
    }
}

} // verus!
