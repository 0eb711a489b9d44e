//! What holds of every packing, proved from the definitions that the
//! packing functions' contracts are stated in.

use vstd::prelude::*;

use crate::models::packing::{PackError, PackedBatchView, IGNORE_INDEX};
use crate::models::packing_model::{
    all_fit, all_of_length, attended_tokens, distinct_lengths, first_oversized, full_records,
    grand_total, greedy_fill, greedy_windows, group_outcome, group_outcomes, ignored_labels,
    has_fixed_width, is_first_oversized, joined, labels_ignored, length_buckets, mask_sum, masks_mark_tokens, merged_outcome, of_length, oversized_error,
    pack_outcome, packed_windows, padded_ids, prefix_mask, records_of, total_tokens, windows_bounded,
};

verus! {

/// Packing the length buckets one by one and merging the results, all or
/// nothing, yields the records of the buckets' windows where every sequence
/// fits, and else the error for the first oversized sequence.
pub proof fn lemma_dispatch_outcome(seqs: Seq<Seq<u32>>, max_length: usize, pad_token_id: u32)
    ensures
        merged_outcome(group_outcomes(length_buckets(seqs), max_length, pad_token_id)) == if all_fit(
            seqs,
            max_length as nat,
        ) {
            Ok::<PackedBatchView, PackError>(
                records_of(
                    packed_windows(length_buckets(seqs), max_length as nat),
                    max_length as nat,
                    pad_token_id,
                ),
            )
        } else {
            Err::<PackedBatchView, PackError>(oversized_error(seqs, max_length))
        },
{
    let max = max_length as nat;
    let lengths = distinct_lengths(seqs);
    let buckets = length_buckets(seqs);
    assert forall|k: int| 0 <= k < buckets.len() implies (lengths[k] <= max <==> all_fit(#[trigger] buckets[k], max))
        && buckets[k].len() > 0 && buckets[k][0].len() == lengths[k] by {
        lemma_bucket_members(seqs, lengths[k]);
        lemma_bucket_nonempty(seqs, k);
        assert(buckets[k] == of_length(seqs, lengths[k]));
        assert(buckets[k][0].len() == lengths[k]);
    }
    if all_fit(seqs, max) {
        lemma_fitting_lengths(seqs, max);
        lemma_merge_of_fitting_groups(buckets, max_length, pad_token_id);
    } else {
        let some = choose|i: int| 0 <= i < seqs.len() && (#[trigger] seqs[i]).len() > max;
        let i = lemma_least_oversized(seqs, max, some);
        lemma_first_oversized_unique(seqs, max, i);
        let k = lemma_first_oversized_length(seqs, max, i);
        assert(is_first_oversized(buckets[k], max, 0));
        lemma_first_oversized_unique(buckets[k], max, 0);
        lemma_merge_of_failing_group(buckets, max_length, pad_token_id, k);
    }
}

/// Whenever packing succeeds, the attention masks of the records sum to
/// the number of tokens that were handed in: no token is lost and none is
/// counted twice.
pub proof fn lemma_packing_covers_every_token(seqs: Seq<Seq<u32>>, max_length: usize, pad_token_id: u32)
    ensures
        pack_outcome(seqs, max_length, pad_token_id) matches Ok(batch) ==> attended_tokens(batch.attention_mask)
            == total_tokens(seqs),
{
    if pack_outcome(seqs, max_length, pad_token_id) is Ok {
        let max = max_length as nat;
        lemma_buckets_fit(seqs, max);
        lemma_packed_windows_bounded(length_buckets(seqs), max);
        lemma_records_attend_tokens(packed_windows(length_buckets(seqs), max), max, pad_token_id);
        lemma_buckets_keep_tokens(seqs);
    }
}

/// Whenever packing succeeds, the three lists hold one entry per record,
/// and every entry is `max_length` long.
pub proof fn lemma_records_have_fixed_width(seqs: Seq<Seq<u32>>, max_length: usize, pad_token_id: u32)
    ensures
        pack_outcome(seqs, max_length, pad_token_id) matches Ok(batch) ==> has_fixed_width(
            batch,
            max_length as nat,
        ),
{
    if pack_outcome(seqs, max_length, pad_token_id) is Ok {
        let max = max_length as nat;
        lemma_buckets_fit(seqs, max);
        lemma_packed_windows_bounded(length_buckets(seqs), max);
        let windows = packed_windows(length_buckets(seqs), max);
        let batch = records_of(windows, max, pad_token_id);
        assert forall|r: int| 0 <= r < batch.input_ids.len() implies (#[trigger] batch.input_ids[r]).len()
            == max_length by {
            assert(0 < windows[r].len() <= max);
        }
    }
}

/// Whenever packing succeeds, each record's mask is ones on a prefix and
/// zeros after it; the prefix is as long as the window that the record was
/// made from, so the ones count the window's tokens; the window's tokens
/// stand under the ones and the pad token under the zeros.
pub proof fn lemma_masks_mark_real_tokens(seqs: Seq<Seq<u32>>, max_length: usize, pad_token_id: u32)
    ensures
        pack_outcome(seqs, max_length, pad_token_id) matches Ok(batch) ==> masks_mark_tokens(
            batch,
            packed_windows(length_buckets(seqs), max_length as nat),
            max_length as nat,
            pad_token_id,
        ),
{
    if pack_outcome(seqs, max_length, pad_token_id) is Ok {
        let max = max_length as nat;
        lemma_buckets_fit(seqs, max);
        lemma_packed_windows_bounded(length_buckets(seqs), max);
        let windows = packed_windows(length_buckets(seqs), max);
        assert forall|r: int| 0 <= r < windows.len() implies mask_sum(
            prefix_mask((#[trigger] windows[r]).len(), max),
        ) == windows[r].len() by {
            lemma_prefix_mask_sum(windows[r].len(), max);
        }
    }
}

/// Whenever packing succeeds, every label of every record is the ignore
/// label.
pub proof fn lemma_labels_are_ignored(seqs: Seq<Seq<u32>>, max_length: usize, pad_token_id: u32)
    ensures
        pack_outcome(seqs, max_length, pad_token_id) matches Ok(batch) ==> labels_ignored(batch),
{
}

/// A sequence one token longer than a record, packed alone, is reported as
/// oversized with its length and the limit.
pub proof fn lemma_one_token_too_long_fails(seq: Seq<u32>, max_length: usize, pad_token_id: u32)
    requires
        max_length > 0,
        seq.len() == max_length + 1,
        seq.len() <= usize::MAX,
    ensures
        pack_outcome(seq![seq], max_length, pad_token_id) == Err::<PackedBatchView, PackError>(
            PackError::OversizedSequence { length: (max_length + 1) as usize, max_length },
        ),
{
    let seqs = seq![seq];
    assert(seqs[0] == seq);
    assert(is_first_oversized(seqs, max_length as nat, 0));
    lemma_first_oversized_unique(seqs, max_length as nat, 0);
}

/// A sequence exactly one record long, packed alone, succeeds and fills one
/// record with no padding.
pub proof fn lemma_exact_fit_fills_one_record(seq: Seq<u32>, max_length: usize, pad_token_id: u32)
    requires
        max_length > 0,
        seq.len() == max_length,
    ensures
        pack_outcome(seq![seq], max_length, pad_token_id) == Ok::<PackedBatchView, PackError>(
            PackedBatchView {
                input_ids: seq![seq],
                attention_mask: seq![prefix_mask(max_length as nat, max_length as nat)],
                labels: seq![ignored_labels(max_length as nat)],
            },
        ),
        mask_sum(prefix_mask(max_length as nat, max_length as nat)) == max_length,
{
    let seqs = seq![seq];
    assert(seqs[0] == seq);
    lemma_full_sequences_pack_to_themselves(seqs, max_length, pad_token_id);
    lemma_prefix_mask_sum(max_length as nat, max_length as nat);
    assert(full_records(seqs, max_length as nat) =~= PackedBatchView {
        input_ids: seq![seq],
        attention_mask: seq![prefix_mask(max_length as nat, max_length as nat)],
        labels: seq![ignored_labels(max_length as nat)],
    });
}

/// The records that packing produced, packed again as sequences of their
/// own, come back one record per record, with the same token rows in the
/// same order and the same labels. Their masks are then all ones, since a
/// record handed in as a sequence has no padding of its own.
pub proof fn lemma_repacking_keeps_records(seqs: Seq<Seq<u32>>, max_length: usize, pad_token_id: u32)
    ensures
        pack_outcome(seqs, max_length, pad_token_id) matches Ok(batch) ==> pack_outcome(
            batch.input_ids,
            max_length,
            pad_token_id,
        ) == Ok::<PackedBatchView, PackError>(full_records(batch.input_ids, max_length as nat)) && full_records(
            batch.input_ids,
            max_length as nat,
        ).labels == batch.labels,
{
    if pack_outcome(seqs, max_length, pad_token_id) is Ok {
        let batch = pack_outcome(seqs, max_length, pad_token_id)->Ok_0;
        lemma_records_have_fixed_width(seqs, max_length, pad_token_id);
        lemma_full_sequences_pack_to_themselves(batch.input_ids, max_length, pad_token_id);
        assert(full_records(batch.input_ids, max_length as nat).labels =~= batch.labels);
    }
}

/// Packing sequences that are all exactly one record wide yields one record
/// per sequence, in order, each holding its sequence unchanged under a mask
/// of ones.
pub proof fn lemma_full_sequences_pack_to_themselves(seqs: Seq<Seq<u32>>, max_length: usize, pad_token_id: u32)
    requires
        max_length > 0,
        all_of_length(seqs, max_length as nat),
    ensures
        pack_outcome(seqs, max_length, pad_token_id) == Ok::<PackedBatchView, PackError>(
            full_records(seqs, max_length as nat),
        ),
{
    assert(all_fit(seqs, max_length as nat));
    lemma_full_sequences_are_windows(seqs, max_length as nat);
    lemma_records_of_full_windows(seqs, max_length as nat, pad_token_id);
}

/// The windows of a group hold the group's tokens: none is dropped, none is
/// repeated, and their order is kept.
pub proof fn lemma_windows_keep_tokens(seqs: Seq<Seq<u32>>, max_length: nat)
    ensures
        joined(greedy_windows(seqs, max_length)) == joined(seqs),
        total_tokens(greedy_windows(seqs, max_length)) == total_tokens(seqs),
{
    let fill = greedy_fill(seqs, max_length);
    lemma_fill_keeps_tokens(seqs, max_length);
    if fill.open.len() > 0 {
        lemma_total_of_push(fill.closed, fill.open);
    } else {
        assert(joined(fill.closed) + fill.open =~= joined(fill.closed));
    }
    lemma_joined_len(greedy_windows(seqs, max_length));
    lemma_joined_len(seqs);
}

/// Where every sequence of a group fits, every window of the group holds
/// between one and `max_length` tokens.
pub proof fn lemma_windows_bounded(seqs: Seq<Seq<u32>>, max_length: nat)
    requires
        all_fit(seqs, max_length),
    ensures
        windows_bounded(greedy_windows(seqs, max_length), max_length),
{
    lemma_fill_bounded(seqs, max_length);
    let fill = greedy_fill(seqs, max_length);
    let windows = greedy_windows(seqs, max_length);
    assert forall|k: int| 0 <= k < windows.len() implies 0 < (#[trigger] windows[k]).len() <= max_length by {
        if k < fill.closed.len() {
            assert(windows[k] == fill.closed[k]);
        }
    }
}

/// Every sequence belongs to exactly one bucket, the one of its length.
/// Since a bucket holds the sequences of its length just as they stand in
/// the input, bucketing drops no sequence and repeats none.
pub proof fn lemma_one_bucket_per_sequence(seqs: Seq<Seq<u32>>, i: int) -> (k: int)
    requires
        0 <= i < seqs.len(),
    ensures
        0 <= k < distinct_lengths(seqs).len(),
        distinct_lengths(seqs)[k] == seqs[i].len(),
        forall|j: int|
            0 <= j < distinct_lengths(seqs).len() && j != k ==> distinct_lengths(seqs)[j] != seqs[i].len(),
        length_buckets(seqs)[k] == of_length(seqs, seqs[i].len()),
    decreases seqs.len(),
{
    lemma_distinct_lengths_differ(seqs);
    let earlier = distinct_lengths(seqs.drop_last());
    let all = distinct_lengths(seqs);
    if i < seqs.len() - 1 {
        assert(seqs.drop_last()[i] == seqs[i]);
        let k = lemma_one_bucket_per_sequence(seqs.drop_last(), i);
        assert(all[k] == earlier[k]);
        k
    } else if earlier.contains(seqs.last().len()) {
        let k = choose|k: int| 0 <= k < earlier.len() && earlier[k] == seqs.last().len();
        k
    } else {
        earlier.len() as int
    }
}

/// Bucketing by length moves sequences and loses no token.
pub proof fn lemma_buckets_keep_tokens(seqs: Seq<Seq<u32>>)
    ensures
        grand_total(length_buckets(seqs)) == total_tokens(seqs),
    decreases seqs.len(),
{
    if seqs.len() == 0 {
        assert(length_buckets(seqs) =~= Seq::<Seq<Seq<u32>>>::empty());
    } else {
        lemma_buckets_keep_tokens(seqs.drop_last());
        lemma_buckets_of_push(seqs.drop_last(), seqs.last());
        assert(seqs.drop_last().push(seqs.last()) =~= seqs);
    }
}

/// Only one position can be the first oversized one.
pub(crate) proof fn lemma_first_oversized_unique(seqs: Seq<Seq<u32>>, max_length: nat, i: int)
    requires
        is_first_oversized(seqs, max_length, i),
    ensures
        first_oversized(seqs, max_length) == i,
        !all_fit(seqs, max_length),
{
    let c = first_oversized(seqs, max_length);
    assert(is_first_oversized(seqs, max_length, c));
    if c < i {
        assert(seqs[c].len() <= max_length);
    }
    if i < c {
        assert(seqs[i].len() <= max_length);
    }
}

/// Adding a sequence to `seqs` adds it to the bucket of its own length and to no other.
pub(crate) proof fn lemma_of_length_push(seqs: Seq<Seq<u32>>, next: Seq<u32>, length: nat)
    ensures
        of_length(seqs.push(next), length) == if next.len() == length {
            of_length(seqs, length).push(next)
        } else {
            of_length(seqs, length)
        },
{
    reveal(Seq::filter);
    assert(seqs.push(next).drop_last() =~= seqs);
}

/// No sequence has a length that is missing from the distinct lengths.
pub(crate) proof fn lemma_unseen_length_is_empty(seqs: Seq<Seq<u32>>, length: nat)
    requires
        !distinct_lengths(seqs).contains(length),
    ensures
        of_length(seqs, length) == Seq::<Seq<u32>>::empty(),
    decreases seqs.len(),
{
    reveal(Seq::filter);
    if seqs.len() > 0 {
        let earlier = distinct_lengths(seqs.drop_last());
        if earlier.contains(seqs.last().len()) {
            assert(distinct_lengths(seqs) == earlier);
        } else {
            let all = earlier.push(seqs.last().len());
            assert(all[earlier.len() as int] == seqs.last().len());
            assert forall|k: int| 0 <= k < earlier.len() implies earlier[k] != length by {
                assert(all[k] == earlier[k]);
            }
        }
        lemma_unseen_length_is_empty(seqs.drop_last(), length);
    }
}

/// An error among the first `n` outcomes decides the merge of all of them.
pub(crate) proof fn lemma_merge_keeps_first_error(outcomes: Seq<Result<PackedBatchView, PackError>>, n: int)
    requires
        0 <= n <= outcomes.len(),
        merged_outcome(outcomes.take(n)) is Err,
    ensures
        merged_outcome(outcomes) == merged_outcome(outcomes.take(n)),
    decreases outcomes.len(),
{
    if n == outcomes.len() {
        assert(outcomes.take(n) =~= outcomes);
    } else {
        assert(outcomes.drop_last().take(n) =~= outcomes.take(n));
        lemma_merge_keeps_first_error(outcomes.drop_last(), n);
    }
}

/// The records of two runs of windows are the records of the first run
/// followed by those of the second.
proof fn lemma_records_concat(first: Seq<Seq<u32>>, second: Seq<Seq<u32>>, max_length: nat, pad_token_id: u32)
    ensures
        records_of(first + second, max_length, pad_token_id) == records_of(first, max_length, pad_token_id).concat(
            records_of(second, max_length, pad_token_id),
        ),
{
    assert(records_of(first + second, max_length, pad_token_id) =~= records_of(
        first,
        max_length,
        pad_token_id,
    ).concat(records_of(second, max_length, pad_token_id)));
}

/// Where every group fits, the merge succeeds with the records of all the
/// groups' windows.
proof fn lemma_merge_of_fitting_groups(groups: Seq<Seq<Seq<u32>>>, max_length: usize, pad_token_id: u32)
    requires
        forall|k: int| 0 <= k < groups.len() ==> all_fit(#[trigger] groups[k], max_length as nat),
    ensures
        merged_outcome(group_outcomes(groups, max_length, pad_token_id)) == Ok::<PackedBatchView, PackError>(
            records_of(packed_windows(groups, max_length as nat), max_length as nat, pad_token_id),
        ),
    decreases groups.len(),
{
    let max = max_length as nat;
    if groups.len() == 0 {
        assert(records_of(Seq::empty(), max, pad_token_id) =~= PackedBatchView::empty());
    } else {
        let outcomes = group_outcomes(groups, max_length, pad_token_id);
        assert(outcomes.drop_last() =~= group_outcomes(groups.drop_last(), max_length, pad_token_id));
        assert forall|k: int| 0 <= k < groups.drop_last().len() implies all_fit(
            #[trigger] groups.drop_last()[k],
            max,
        ) by {
            assert(groups.drop_last()[k] == groups[k]);
        }
        lemma_merge_of_fitting_groups(groups.drop_last(), max_length, pad_token_id);
        assert(all_fit(groups[groups.len() - 1], max));
        assert(outcomes.last() == group_outcome(groups.last(), max_length, pad_token_id));
        lemma_records_concat(
            packed_windows(groups.drop_last(), max),
            greedy_windows(groups.last(), max),
            max,
            pad_token_id,
        );
    }
}

/// The merge fails with the error of the first group that does not fit.
proof fn lemma_merge_of_failing_group(
    groups: Seq<Seq<Seq<u32>>>,
    max_length: usize,
    pad_token_id: u32,
    k: int,
)
    requires
        0 <= k < groups.len(),
        forall|j: int| 0 <= j < k ==> all_fit(#[trigger] groups[j], max_length as nat),
        !all_fit(groups[k], max_length as nat),
    ensures
        merged_outcome(group_outcomes(groups, max_length, pad_token_id)) == Err::<PackedBatchView, PackError>(
            oversized_error(groups[k], max_length),
        ),
{
    let outcomes = group_outcomes(groups, max_length, pad_token_id);
    let head = outcomes.take(k + 1);
    assert(head.drop_last() =~= group_outcomes(groups.take(k), max_length, pad_token_id));
    assert forall|j: int| 0 <= j < groups.take(k).len() implies all_fit(
        #[trigger] groups.take(k)[j],
        max_length as nat,
    ) by {
        assert(groups.take(k)[j] == groups[j]);
    }
    lemma_merge_of_fitting_groups(groups.take(k), max_length, pad_token_id);
    assert(head.last() == group_outcome(groups[k], max_length, pad_token_id));
    lemma_merge_keeps_first_error(outcomes, k + 1);
}

/// Every member of the bucket for `length` has that length.
proof fn lemma_bucket_members(seqs: Seq<Seq<u32>>, length: nat)
    ensures
        forall|m: int| 0 <= m < of_length(seqs, length).len() ==> (#[trigger] of_length(seqs, length)[m]).len() == length,
    decreases seqs.len(),
{
    reveal(Seq::filter);
    if seqs.len() > 0 {
        lemma_bucket_members(seqs.drop_last(), length);
    }
}

/// Every distinct length is the length of some sequence, so its bucket is not empty.
proof fn lemma_bucket_nonempty(seqs: Seq<Seq<u32>>, k: int)
    requires
        0 <= k < distinct_lengths(seqs).len(),
    ensures
        of_length(seqs, distinct_lengths(seqs)[k]).len() > 0,
    decreases seqs.len(),
{
    let earlier = distinct_lengths(seqs.drop_last());
    assert(seqs.drop_last().push(seqs.last()) =~= seqs);
    lemma_of_length_push(seqs.drop_last(), seqs.last(), distinct_lengths(seqs)[k]);
    if k < earlier.len() {
        lemma_bucket_nonempty(seqs.drop_last(), k);
    }
}

/// The distinct lengths of sequences that all fit are themselves within the limit.
proof fn lemma_fitting_lengths(seqs: Seq<Seq<u32>>, max_length: nat)
    requires
        all_fit(seqs, max_length),
    ensures
        forall|k: int| 0 <= k < distinct_lengths(seqs).len() ==> (#[trigger] distinct_lengths(seqs)[k]) <= max_length,
    decreases seqs.len(),
{
    if seqs.len() > 0 {
        assert forall|j: int| 0 <= j < seqs.drop_last().len() implies (#[trigger] seqs.drop_last()[j]).len()
            <= max_length by {
            assert(seqs.drop_last()[j] == seqs[j]);
        }
        lemma_fitting_lengths(seqs.drop_last(), max_length);
        assert(seqs[seqs.len() - 1].len() <= max_length);
        let earlier = distinct_lengths(seqs.drop_last());
        assert forall|k: int| 0 <= k < distinct_lengths(seqs).len() implies (#[trigger] distinct_lengths(seqs)[k])
            <= max_length by {
            if k < earlier.len() {
                assert(distinct_lengths(seqs)[k] == earlier[k]);
            }
        }
    }
}

/// The length of the first oversized sequence is the first distinct length
/// beyond the limit.
proof fn lemma_first_oversized_length(seqs: Seq<Seq<u32>>, max_length: nat, i: int) -> (k: int)
    requires
        is_first_oversized(seqs, max_length, i),
    ensures
        0 <= k < distinct_lengths(seqs).len(),
        distinct_lengths(seqs)[k] == seqs[i].len(),
        forall|j: int| 0 <= j < k ==> (#[trigger] distinct_lengths(seqs)[j]) <= max_length,
    decreases seqs.len(),
{
    let init = seqs.drop_last();
    let earlier = distinct_lengths(init);
    if i < seqs.len() - 1 {
        assert(is_first_oversized(init, max_length, i)) by {
            assert(init[i] == seqs[i]);
            assert forall|j: int| 0 <= j < i implies (#[trigger] init[j]).len() <= max_length by {
                assert(init[j] == seqs[j]);
            }
        }
        let k = lemma_first_oversized_length(init, max_length, i);
        assert forall|j: int| 0 <= j <= k implies distinct_lengths(seqs)[j] == #[trigger] earlier[j] by {}
        assert(distinct_lengths(seqs)[k] == earlier[k]);
        assert forall|j: int| 0 <= j < k implies (#[trigger] distinct_lengths(seqs)[j]) <= max_length by {
            assert(distinct_lengths(seqs)[j] == earlier[j]);
        }
        k
    } else {
        assert(all_fit(init, max_length)) by {
            assert forall|j: int| 0 <= j < init.len() implies (#[trigger] init[j]).len() <= max_length by {
                assert(init[j] == seqs[j]);
            }
        }
        lemma_fitting_lengths(init, max_length);
        if earlier.contains(seqs.last().len()) {
            let at = choose|at: int| 0 <= at < earlier.len() && earlier[at] == seqs.last().len();
            assert(earlier[at] <= max_length);
        }
        let k = earlier.len() as int;
        assert forall|j: int| 0 <= j < k implies (#[trigger] distinct_lengths(seqs)[j]) <= max_length by {
            assert(distinct_lengths(seqs)[j] == earlier[j]);
        }
        k
    }
}

/// Where some sequence is oversized, one of them is the first.
proof fn lemma_least_oversized(seqs: Seq<Seq<u32>>, max_length: nat, some: int) -> (i: int)
    requires
        0 <= some < seqs.len(),
        seqs[some].len() > max_length,
    ensures
        is_first_oversized(seqs, max_length, i),
    decreases some,
{
    if exists|j: int| 0 <= j < some && (#[trigger] seqs[j]).len() > max_length {
        let j = choose|j: int| 0 <= j < some && (#[trigger] seqs[j]).len() > max_length;
        lemma_least_oversized(seqs, max_length, j)
    } else {
        some
    }
}

/// A sequence added at the end adds its tokens to the total and to the joined text.
proof fn lemma_total_of_push(seqs: Seq<Seq<u32>>, next: Seq<u32>)
    ensures
        total_tokens(seqs.push(next)) == total_tokens(seqs) + next.len(),
        joined(seqs.push(next)) == joined(seqs) + next,
{
    assert(seqs.push(next).drop_last() =~= seqs);
}

/// The total of two lists in a row is the sum of their totals.
proof fn lemma_total_of_concat(first: Seq<Seq<u32>>, second: Seq<Seq<u32>>)
    ensures
        total_tokens(first + second) == total_tokens(first) + total_tokens(second),
    decreases second.len(),
{
    if second.len() == 0 {
        assert(first + second =~= first);
    } else {
        assert((first + second).drop_last() =~= first + second.drop_last());
        lemma_total_of_concat(first, second.drop_last());
    }
}

/// The tokens of a list of sequences, joined, are as many as its total.
proof fn lemma_joined_len(seqs: Seq<Seq<u32>>)
    ensures
        joined(seqs).len() == total_tokens(seqs),
    decreases seqs.len(),
{
    if seqs.len() > 0 {
        lemma_joined_len(seqs.drop_last());
    }
}

/// Greedy accumulation keeps every token, in order: the closed windows and
/// the open one, joined, are the sequences joined.
proof fn lemma_fill_keeps_tokens(seqs: Seq<Seq<u32>>, max_length: nat)
    ensures
        joined(greedy_fill(seqs, max_length).closed) + greedy_fill(seqs, max_length).open == joined(seqs),
    decreases seqs.len(),
{
    if seqs.len() == 0 {
        assert(joined(seqs) =~= Seq::<u32>::empty() + Seq::<u32>::empty());
    } else {
        let before = greedy_fill(seqs.drop_last(), max_length);
        lemma_fill_keeps_tokens(seqs.drop_last(), max_length);
        if before.open.len() + seqs.last().len() <= max_length {
            assert(joined(before.closed) + (before.open + seqs.last()) =~= (joined(before.closed) + before.open)
                + seqs.last());
        } else {
            lemma_total_of_push(before.closed, before.open);
        }
    }
}

/// Where every sequence fits, no window of the accumulation is empty and
/// none exceeds the limit.
proof fn lemma_fill_bounded(seqs: Seq<Seq<u32>>, max_length: nat)
    requires
        all_fit(seqs, max_length),
    ensures
        windows_bounded(greedy_fill(seqs, max_length).closed, max_length),
        greedy_fill(seqs, max_length).open.len() <= max_length,
    decreases seqs.len(),
{
    if seqs.len() > 0 {
        let init = seqs.drop_last();
        assert(all_fit(init, max_length)) by {
            assert forall|j: int| 0 <= j < init.len() implies (#[trigger] init[j]).len() <= max_length by {
                assert(init[j] == seqs[j]);
            }
        }
        lemma_fill_bounded(init, max_length);
        assert(seqs[seqs.len() - 1].len() <= max_length);
        let before = greedy_fill(init, max_length);
        let after = greedy_fill(seqs, max_length);
        assert forall|k: int| 0 <= k < after.closed.len() implies 0 < (#[trigger] after.closed[k]).len()
            <= max_length by {
            if k < before.closed.len() {
                assert(after.closed[k] == before.closed[k]);
            }
        }
    }
}

/// The same for the windows of several groups.
proof fn lemma_packed_windows_bounded(groups: Seq<Seq<Seq<u32>>>, max_length: nat)
    requires
        forall|k: int| 0 <= k < groups.len() ==> all_fit(#[trigger] groups[k], max_length),
    ensures
        windows_bounded(packed_windows(groups, max_length), max_length),
        total_tokens(packed_windows(groups, max_length)) == grand_total(groups),
    decreases groups.len(),
{
    if groups.len() > 0 {
        let init = groups.drop_last();
        assert forall|k: int| 0 <= k < init.len() implies all_fit(#[trigger] init[k], max_length) by {
            assert(init[k] == groups[k]);
        }
        lemma_packed_windows_bounded(init, max_length);
        assert(all_fit(groups[groups.len() - 1], max_length));
        lemma_windows_bounded(groups.last(), max_length);
        lemma_windows_keep_tokens(groups.last(), max_length);
        lemma_total_of_concat(packed_windows(init, max_length), greedy_windows(groups.last(), max_length));
        let head = packed_windows(init, max_length);
        let all = packed_windows(groups, max_length);
        assert forall|k: int| 0 <= k < all.len() implies 0 < (#[trigger] all[k]).len() <= max_length by {
            if k < head.len() {
                assert(all[k] == head[k]);
            } else {
                assert(all[k] == greedy_windows(groups.last(), max_length)[k - head.len()]);
            }
        }
    }
}

/// A mask of `occupied` ones followed by zeros sums to `occupied`.
proof fn lemma_prefix_mask_sum(occupied: nat, max_length: nat)
    requires
        occupied <= max_length,
    ensures
        mask_sum(prefix_mask(occupied, max_length)) == occupied,
    decreases max_length,
{
    if max_length > 0 {
        let shorter = (max_length - 1) as nat;
        if occupied == max_length {
            assert(prefix_mask(occupied, max_length).drop_last() =~= prefix_mask(shorter, shorter));
            lemma_prefix_mask_sum(shorter, shorter);
        } else {
            assert(prefix_mask(occupied, max_length).drop_last() =~= prefix_mask(occupied, shorter));
            lemma_prefix_mask_sum(occupied, shorter);
        }
    }
}

/// The masks of the records of `windows` sum to the number of tokens in `windows`.
proof fn lemma_records_attend_tokens(windows: Seq<Seq<u32>>, max_length: nat, pad_token_id: u32)
    requires
        windows_bounded(windows, max_length),
    ensures
        attended_tokens(records_of(windows, max_length, pad_token_id).attention_mask) == total_tokens(windows),
    decreases windows.len(),
{
    if windows.len() > 0 {
        let init = windows.drop_last();
        assert forall|k: int| 0 <= k < init.len() implies 0 < (#[trigger] init[k]).len() <= max_length by {
            assert(init[k] == windows[k]);
        }
        lemma_records_attend_tokens(init, max_length, pad_token_id);
        assert(records_of(windows, max_length, pad_token_id).attention_mask.drop_last() =~= records_of(
            init,
            max_length,
            pad_token_id,
        ).attention_mask);
        assert(0 < windows[windows.len() - 1].len() <= max_length);
        lemma_prefix_mask_sum(windows.last().len(), max_length);
    }
}

/// A sequence added to `seqs` adds its length to the total of the buckets.
proof fn lemma_buckets_of_push(seqs: Seq<Seq<u32>>, next: Seq<u32>)
    ensures
        grand_total(length_buckets(seqs.push(next))) == grand_total(length_buckets(seqs)) + next.len(),
{
    let lengths = distinct_lengths(seqs);
    let before = length_buckets(seqs);
    let after = length_buckets(seqs.push(next));
    assert(seqs.push(next).drop_last() =~= seqs);
    assert forall|k: int| 0 <= k < lengths.len() implies #[trigger] after[k] == if lengths[k] == next.len() {
        before[k].push(next)
    } else {
        before[k]
    } by {
        lemma_of_length_push(seqs, next, lengths[k]);
    }
    if lengths.contains(next.len()) {
        let at = choose|at: int| 0 <= at < lengths.len() && lengths[at] == next.len();
        lemma_distinct_lengths_differ(seqs);
        lemma_total_of_push(before[at], next);
        assert(after =~= before.update(at, before[at].push(next)));
        lemma_grand_total_of_update(before, at, before[at].push(next));
    } else {
        lemma_unseen_length_is_empty(seqs, next.len());
        lemma_of_length_push(seqs, next, next.len());
        assert(after =~= before.push(Seq::<Seq<u32>>::empty().push(next)));
        assert(after.drop_last() =~= before);
        lemma_total_of_push(Seq::<Seq<u32>>::empty(), next);
    }
}

/// No length occurs twice among the distinct lengths.
proof fn lemma_distinct_lengths_differ(seqs: Seq<Seq<u32>>)
    ensures
        forall|j: int, k: int|
            0 <= j < k < distinct_lengths(seqs).len() ==> distinct_lengths(seqs)[j] != distinct_lengths(seqs)[k],
    decreases seqs.len(),
{
    if seqs.len() > 0 {
        lemma_distinct_lengths_differ(seqs.drop_last());
        let earlier = distinct_lengths(seqs.drop_last());
        let all = distinct_lengths(seqs);
        assert forall|j: int, k: int| 0 <= j < k < all.len() implies all[j] != all[k] by {
            assert(all[j] == earlier[j]);
            if k < earlier.len() {
                assert(all[k] == earlier[k]);
            } else {
                assert(!earlier.contains(seqs.last().len()));
            }
        }
    }
}

/// Replacing one group changes the total by the difference of the two groups.
proof fn lemma_grand_total_of_update(groups: Seq<Seq<Seq<u32>>>, at: int, group: Seq<Seq<u32>>)
    requires
        0 <= at < groups.len(),
    ensures
        grand_total(groups.update(at, group)) + total_tokens(groups[at]) == grand_total(groups) + total_tokens(
            group,
        ),
    decreases groups.len(),
{
    if at == groups.len() - 1 {
        assert(groups.update(at, group).drop_last() =~= groups.drop_last());
    } else {
        assert(groups.update(at, group).drop_last() =~= groups.drop_last().update(at, group));
        lemma_grand_total_of_update(groups.drop_last(), at, group);
    }
}

/// Where every sequence fits, so does every sequence of every bucket.
proof fn lemma_buckets_fit(seqs: Seq<Seq<u32>>, max_length: nat)
    requires
        all_fit(seqs, max_length),
    ensures
        forall|k: int| 0 <= k < length_buckets(seqs).len() ==> all_fit(#[trigger] length_buckets(seqs)[k], max_length),
{
    lemma_fitting_lengths(seqs, max_length);
    let lengths = distinct_lengths(seqs);
    assert forall|k: int| 0 <= k < length_buckets(seqs).len() implies all_fit(
        #[trigger] length_buckets(seqs)[k],
        max_length,
    ) by {
        lemma_bucket_members(seqs, lengths[k]);
        assert(lengths[k] <= max_length);
    }
}

/// Sequences that all have one length form a single bucket, which holds
/// them all in their order.
proof fn lemma_single_bucket(seqs: Seq<Seq<u32>>, length: nat)
    requires
        seqs.len() > 0,
        all_of_length(seqs, length),
    ensures
        distinct_lengths(seqs) == seq![length],
        of_length(seqs, length) == seqs,
        length_buckets(seqs) == seq![seqs],
    decreases seqs.len(),
{
    let init = seqs.drop_last();
    assert(seqs[seqs.len() - 1].len() == length);
    assert(init.push(seqs.last()) =~= seqs);
    lemma_of_length_push(init, seqs.last(), length);
    if init.len() == 0 {
        assert(distinct_lengths(init) =~= Seq::<nat>::empty());
        assert(distinct_lengths(seqs) =~= seq![length]);
        lemma_unseen_length_is_empty(init, length);
    } else {
        assert forall|r: int| 0 <= r < init.len() implies (#[trigger] init[r]).len() == length by {
            assert(init[r] == seqs[r]);
        }
        lemma_single_bucket(init, length);
        assert(seq![length][0] == length);
        assert(distinct_lengths(init).contains(length));
    }
    assert(distinct_lengths(seqs) =~= seq![length]);
    assert(of_length(seqs, length) =~= seqs);
    assert(distinct_lengths(seqs)[0] == length);
    assert(length_buckets(seqs)[0] == of_length(seqs, distinct_lengths(seqs)[0]));
    assert(length_buckets(seqs) =~= seq![seqs]);
}

/// Full sequences never share a window: each one closes the window before it.
proof fn lemma_full_sequences_fill(seqs: Seq<Seq<u32>>, max_length: nat)
    requires
        max_length > 0,
        all_of_length(seqs, max_length),
    ensures
        greedy_windows(seqs, max_length) == seqs,
        seqs.len() > 0 ==> greedy_fill(seqs, max_length).closed == seqs.drop_last() && greedy_fill(
            seqs,
            max_length,
        ).open == seqs.last(),
    decreases seqs.len(),
{
    if seqs.len() == 0 {
        assert(greedy_windows(seqs, max_length) =~= seqs);
    } else {
        let init = seqs.drop_last();
        assert(seqs[seqs.len() - 1].len() == max_length);
        assert forall|r: int| 0 <= r < init.len() implies (#[trigger] init[r]).len() == max_length by {
            assert(init[r] == seqs[r]);
        }
        lemma_full_sequences_fill(init, max_length);
        let before = greedy_fill(init, max_length);
        let after = greedy_fill(seqs, max_length);
        if init.len() == 0 {
            assert(after.open =~= seqs.last());
            assert(after.closed =~= init);
        } else {
            assert(init[init.len() - 1].len() == max_length);
            assert(after.closed =~= init);
        }
        assert(greedy_windows(seqs, max_length) =~= seqs);
    }
}

/// The windows of sequences that are all exactly one record wide are the
/// sequences themselves.
proof fn lemma_full_sequences_are_windows(seqs: Seq<Seq<u32>>, max_length: nat)
    requires
        max_length > 0,
        all_of_length(seqs, max_length),
    ensures
        packed_windows(length_buckets(seqs), max_length) == seqs,
{
    if seqs.len() == 0 {
        assert(distinct_lengths(seqs) =~= Seq::<nat>::empty());
        assert(length_buckets(seqs) =~= Seq::<Seq<Seq<u32>>>::empty());
        assert(packed_windows(length_buckets(seqs), max_length) =~= seqs);
    } else {
        lemma_single_bucket(seqs, max_length);
        lemma_full_sequences_fill(seqs, max_length);
        let buckets = seq![seqs];
        assert(buckets.drop_last() =~= Seq::<Seq<Seq<u32>>>::empty());
        assert(buckets.last() == seqs);
        assert(packed_windows(buckets.drop_last(), max_length) =~= Seq::<Seq<u32>>::empty());
        assert(packed_windows(buckets, max_length) =~= seqs);
    }
}

/// A full window needs no padding: its record is the window under a mask of ones.
proof fn lemma_records_of_full_windows(windows: Seq<Seq<u32>>, max_length: nat, pad_token_id: u32)
    requires
        all_of_length(windows, max_length),
    ensures
        records_of(windows, max_length, pad_token_id) == full_records(windows, max_length),
{
    let batch = records_of(windows, max_length, pad_token_id);
    let full = full_records(windows, max_length);
    assert forall|r: int| 0 <= r < windows.len() implies #[trigger] batch.input_ids[r] == windows[r] by {
        assert(windows[r].len() == max_length);
        assert(padded_ids(windows[r], max_length, pad_token_id) =~= windows[r]);
    }
    assert forall|r: int| 0 <= r < windows.len() implies #[trigger] batch.attention_mask[r] == full.attention_mask[r] by {
        assert(windows[r].len() == max_length);
    }
    assert(batch.input_ids =~= full.input_ids);
    assert(batch.attention_mask =~= full.attention_mask);
    assert(batch.labels =~= full.labels);
}

} // verus!
