use rust_converter::models::packing::{
    add_padded_batch, bucket_by_length, merge_groups, pack_dataset, pack_length_group, pack_sequences,
    PackError, PackedBatch, IGNORE_INDEX,
};

fn batch_of(ids: Vec<Vec<u32>>, mask: Vec<Vec<u32>>, labels: Vec<Vec<i32>>) -> PackedBatch {
    PackedBatch { input_ids: ids, attention_mask: mask, labels }
}

#[test]
fn new_batch_is_empty() {
    let batch = PackedBatch::new();
    assert!(batch.input_ids.is_empty());
    assert!(batch.attention_mask.is_empty());
    assert!(batch.labels.is_empty());
}

#[test]
fn to_tuple_hands_out_the_three_lists_in_order() {
    let batch = batch_of(vec![vec![1, 2]], vec![vec![1, 0]], vec![vec![-100, -100]]);
    let (ids, mask, labels) = batch.to_tuple();
    assert_eq!(ids, vec![vec![1, 2]]);
    assert_eq!(mask, vec![vec![1, 0]]);
    assert_eq!(labels, vec![vec![-100, -100]]);
}

#[test]
fn ignore_label_is_minus_one_hundred() {
    assert_eq!(IGNORE_INDEX, -100);
}

#[test]
fn closing_a_window_pads_it() {
    let mut batch = PackedBatch::new();
    let outcome = add_padded_batch(&mut batch, vec![6, 7, 8, 9], 5, 0);
    assert_eq!(outcome, Ok(()));
    assert_eq!(
        batch,
        batch_of(vec![vec![6, 7, 8, 9, 0]], vec![vec![1, 1, 1, 1, 0]], vec![vec![-100; 5]])
    );
}

#[test]
fn closing_a_window_uses_the_given_pad_token() {
    let mut batch = PackedBatch::new();
    assert_eq!(add_padded_batch(&mut batch, vec![3], 4, 99), Ok(()));
    assert_eq!(batch.input_ids, vec![vec![3, 99, 99, 99]]);
    assert_eq!(batch.attention_mask, vec![vec![1, 0, 0, 0]]);
}

#[test]
fn closing_an_empty_window_gives_a_record_of_padding() {
    let mut batch = PackedBatch::new();
    assert_eq!(add_padded_batch(&mut batch, vec![], 3, 7), Ok(()));
    assert_eq!(batch, batch_of(vec![vec![7, 7, 7]], vec![vec![0, 0, 0]], vec![vec![-100; 3]]));
}

#[test]
fn closing_a_window_appends_after_earlier_records() {
    let mut batch = batch_of(vec![vec![1, 1]], vec![vec![1, 1]], vec![vec![-100, -100]]);
    assert_eq!(add_padded_batch(&mut batch, vec![2], 2, 0), Ok(()));
    assert_eq!(batch.input_ids, vec![vec![1, 1], vec![2, 0]]);
    assert_eq!(batch.attention_mask, vec![vec![1, 1], vec![1, 0]]);
    assert_eq!(batch.labels, vec![vec![-100, -100], vec![-100, -100]]);
}

#[test]
fn closing_an_oversized_window_fails_and_leaves_the_batch() {
    let mut batch = batch_of(vec![vec![1, 1]], vec![vec![1, 1]], vec![vec![-100, -100]]);
    let outcome = add_padded_batch(&mut batch, vec![1, 2, 3], 2, 0);
    assert_eq!(outcome, Err(PackError::OversizedSequence { length: 3, max_length: 2 }));
    assert_eq!(batch, batch_of(vec![vec![1, 1]], vec![vec![1, 1]], vec![vec![-100, -100]]));
}

#[test]
fn group_packer_joins_sequences_that_fit_together() {
    let group = vec![vec![1, 2, 3], vec![4, 5], vec![6, 7, 8, 9]];
    let batch = pack_length_group(&group, 5, 0).unwrap();
    assert_eq!(batch.input_ids, vec![vec![1, 2, 3, 4, 5], vec![6, 7, 8, 9, 0]]);
    assert_eq!(batch.attention_mask, vec![vec![1, 1, 1, 1, 1], vec![1, 1, 1, 1, 0]]);
    assert_eq!(batch.labels, vec![vec![-100; 5], vec![-100; 5]]);
}

#[test]
fn group_packer_does_not_look_back() {
    // The third sequence would fit beside the first, but the first window is closed by then.
    let group = vec![vec![1, 2, 3], vec![4, 5, 6], vec![7]];
    let batch = pack_length_group(&group, 4, 0).unwrap();
    assert_eq!(batch.input_ids, vec![vec![1, 2, 3, 0], vec![4, 5, 6, 7]]);
    assert_eq!(batch.attention_mask, vec![vec![1, 1, 1, 0], vec![1, 1, 1, 1]]);
}

#[test]
fn group_packer_on_no_sequences_gives_no_record() {
    let group: Vec<Vec<u32>> = vec![];
    assert_eq!(pack_length_group(&group, 4, 0), Ok(PackedBatch::new()));
}

#[test]
fn group_packer_skips_empty_sequences() {
    let group = vec![vec![], vec![]];
    assert_eq!(pack_length_group(&group, 4, 0), Ok(PackedBatch::new()));
    let group = vec![vec![], vec![5], vec![]];
    let batch = pack_length_group(&group, 2, 0).unwrap();
    assert_eq!(batch.input_ids, vec![vec![5, 0]]);
}

#[test]
fn group_packer_reports_the_first_oversized_sequence() {
    let group = vec![vec![1], vec![1, 2, 3, 4], vec![1, 2, 3, 4, 5, 6, 7]];
    assert_eq!(
        pack_length_group(&group, 3, 0),
        Err(PackError::OversizedSequence { length: 4, max_length: 3 })
    );
}

#[test]
fn group_packer_reports_an_oversized_first_sequence() {
    let group = vec![vec![1, 2, 3, 4, 5, 6]];
    assert_eq!(
        pack_length_group(&group, 5, 0),
        Err(PackError::OversizedSequence { length: 6, max_length: 5 })
    );
}

#[test]
fn group_packer_with_zero_width() {
    let group: Vec<Vec<u32>> = vec![vec![], vec![]];
    assert_eq!(pack_length_group(&group, 0, 0), Ok(PackedBatch::new()));
    let group = vec![vec![9]];
    assert_eq!(
        pack_length_group(&group, 0, 0),
        Err(PackError::OversizedSequence { length: 1, max_length: 0 })
    );
}

#[test]
fn buckets_come_in_order_of_first_appearance() {
    let groups = bucket_by_length(vec![vec![1, 2, 3], vec![4, 5], vec![6, 7, 8], vec![9], vec![10, 11]]);
    assert_eq!(
        groups,
        vec![
            vec![vec![1, 2, 3], vec![6, 7, 8]],
            vec![vec![4, 5], vec![10, 11]],
            vec![vec![9]],
        ]
    );
}

#[test]
fn bucketing_nothing_gives_no_bucket() {
    let groups = bucket_by_length(vec![]);
    assert!(groups.is_empty());
}

#[test]
fn bucketing_keeps_empty_sequences_together() {
    let groups = bucket_by_length(vec![vec![], vec![1], vec![]]);
    assert_eq!(groups, vec![vec![vec![], vec![]], vec![vec![1]]]);
}

#[test]
fn merging_concatenates_in_group_order() {
    let first = batch_of(vec![vec![1, 0]], vec![vec![1, 0]], vec![vec![-100, -100]]);
    let second = batch_of(
        vec![vec![2, 3], vec![4, 0]],
        vec![vec![1, 1], vec![1, 0]],
        vec![vec![-100, -100], vec![-100, -100]],
    );
    let merged = merge_groups(vec![Ok(first), Ok(second)]).unwrap();
    assert_eq!(merged.input_ids, vec![vec![1, 0], vec![2, 3], vec![4, 0]]);
    assert_eq!(merged.attention_mask, vec![vec![1, 0], vec![1, 1], vec![1, 0]]);
    assert_eq!(merged.labels, vec![vec![-100, -100]; 3]);
}

#[test]
fn merging_nothing_gives_an_empty_batch() {
    assert_eq!(merge_groups(vec![]), Ok(PackedBatch::new()));
}

#[test]
fn merging_returns_the_first_error() {
    let good = batch_of(vec![vec![1]], vec![vec![1]], vec![vec![-100]]);
    let merged = merge_groups(vec![
        Ok(good),
        Err(PackError::OversizedSequence { length: 9, max_length: 1 }),
        Err(PackError::OversizedSequence { length: 4, max_length: 1 }),
    ]);
    assert_eq!(merged, Err(PackError::OversizedSequence { length: 9, max_length: 1 }));
}

#[test]
fn packing_buckets_by_length_before_it_joins() {
    let batch = pack_sequences(vec![vec![1, 2, 3], vec![4, 5], vec![6, 7, 8, 9]], 5, 0).unwrap();
    assert_eq!(
        batch.input_ids,
        vec![vec![1, 2, 3, 0, 0], vec![4, 5, 0, 0, 0], vec![6, 7, 8, 9, 0]]
    );
    assert_eq!(
        batch.attention_mask,
        vec![vec![1, 1, 1, 0, 0], vec![1, 1, 0, 0, 0], vec![1, 1, 1, 1, 0]]
    );
    assert_eq!(batch.labels, vec![vec![-100; 5]; 3]);
}

#[test]
fn packing_joins_sequences_of_one_length() {
    let batch = pack_sequences(
        vec![vec![1, 2], vec![9, 9, 9], vec![3, 4], vec![5, 6], vec![8, 8, 8]],
        5,
        0,
    )
    .unwrap();
    assert_eq!(
        batch.input_ids,
        vec![vec![1, 2, 3, 4, 0], vec![5, 6, 0, 0, 0], vec![9, 9, 9, 0, 0], vec![8, 8, 8, 0, 0]]
    );
    assert_eq!(
        batch.attention_mask,
        vec![vec![1, 1, 1, 1, 0], vec![1, 1, 0, 0, 0], vec![1, 1, 1, 0, 0], vec![1, 1, 1, 0, 0]]
    );
    assert_eq!(batch.labels, vec![vec![-100; 5]; 4]);
}

#[test]
fn packing_fails_on_an_oversized_sequence() {
    assert_eq!(
        pack_sequences(vec![vec![1, 2, 3, 4, 5, 6]], 5, 0),
        Err(PackError::OversizedSequence { length: 6, max_length: 5 })
    );
}

#[test]
fn packing_reports_the_first_oversized_sequence_of_the_input() {
    let sequences = vec![vec![1], vec![0; 9], vec![2, 2], vec![0; 7], vec![0; 9]];
    assert_eq!(
        pack_sequences(sequences, 3, 0),
        Err(PackError::OversizedSequence { length: 9, max_length: 3 })
    );
    let sequences = vec![vec![0; 7], vec![1], vec![0; 9]];
    assert_eq!(
        pack_sequences(sequences, 3, 0),
        Err(PackError::OversizedSequence { length: 7, max_length: 3 })
    );
}

#[test]
fn packing_rejects_a_zero_width() {
    assert_eq!(pack_sequences(vec![vec![1]], 0, 0), Err(PackError::InvalidConfiguration));
    assert_eq!(pack_sequences(vec![], 0, 0), Err(PackError::InvalidConfiguration));
}

#[test]
fn packing_nothing_gives_an_empty_batch() {
    assert_eq!(pack_sequences(vec![], 8, 0), Ok(PackedBatch::new()));
}

#[test]
fn one_token_over_the_limit_fails() {
    for max_length in 1..6usize {
        let sequence = vec![1u32; max_length + 1];
        assert_eq!(
            pack_sequences(vec![sequence], max_length, 0),
            Err(PackError::OversizedSequence { length: max_length + 1, max_length })
        );
    }
}

#[test]
fn an_exact_fit_fills_one_record_without_padding() {
    let batch = pack_sequences(vec![vec![5, 6, 7, 8]], 4, 0).unwrap();
    assert_eq!(batch.input_ids, vec![vec![5, 6, 7, 8]]);
    assert_eq!(batch.attention_mask, vec![vec![1, 1, 1, 1]]);
    assert_eq!(batch.labels, vec![vec![-100; 4]]);
}

fn sample_input() -> Vec<Vec<u32>> {
    vec![
        vec![11, 12, 13],
        vec![21],
        vec![31, 32, 33],
        vec![41, 42, 43, 44, 45, 46],
        vec![51],
        vec![],
        vec![61],
        vec![71, 72, 73],
        vec![81, 82],
    ]
}

#[test]
fn masks_sum_to_the_number_of_tokens_handed_in() {
    let tokens: usize = sample_input().iter().map(|s| s.len()).sum();
    let batch = pack_sequences(sample_input(), 6, 0).unwrap();
    let attended: u32 = batch.attention_mask.iter().map(|m| m.iter().sum::<u32>()).sum();
    assert_eq!(attended as usize, tokens);
    assert_eq!(tokens, 20);
}

#[test]
fn every_record_is_max_length_wide() {
    let batch = pack_sequences(sample_input(), 6, 0).unwrap();
    assert_eq!(batch.input_ids.len(), batch.attention_mask.len());
    assert_eq!(batch.input_ids.len(), batch.labels.len());
    for r in 0..batch.input_ids.len() {
        assert_eq!(batch.input_ids[r].len(), 6);
        assert_eq!(batch.attention_mask[r].len(), 6);
        assert_eq!(batch.labels[r].len(), 6);
    }
}

#[test]
fn masks_are_ones_then_zeros_over_tokens_then_padding() {
    let batch = pack_sequences(sample_input(), 6, 1000).unwrap();
    assert_eq!(
        batch.input_ids,
        vec![
            vec![11, 12, 13, 31, 32, 33],
            vec![71, 72, 73, 1000, 1000, 1000],
            vec![21, 51, 61, 1000, 1000, 1000],
            vec![41, 42, 43, 44, 45, 46],
            vec![81, 82, 1000, 1000, 1000, 1000],
        ]
    );
    assert_eq!(
        batch.attention_mask,
        vec![
            vec![1, 1, 1, 1, 1, 1],
            vec![1, 1, 1, 0, 0, 0],
            vec![1, 1, 1, 0, 0, 0],
            vec![1, 1, 1, 1, 1, 1],
            vec![1, 1, 0, 0, 0, 0],
        ]
    );
}

#[test]
fn every_label_is_the_ignore_label() {
    let batch = pack_sequences(sample_input(), 6, 0).unwrap();
    assert!(batch.labels.iter().all(|row| row.iter().all(|label| *label == -100)));
}

#[test]
fn repacking_the_records_gives_them_back() {
    let first = pack_sequences(sample_input(), 6, 0).unwrap();
    let second = pack_sequences(first.input_ids.clone(), 6, 0).unwrap();
    assert_eq!(second.input_ids, first.input_ids);
    assert_eq!(second.labels, first.labels);
    assert_eq!(second.attention_mask, vec![vec![1; 6]; first.input_ids.len()]);
}

#[test]
fn packing_many_buckets_keeps_their_order() {
    // Enough buckets to occupy several workers: the records still come bucket by bucket.
    let mut sequences = Vec::new();
    for length in (1..=40usize).rev() {
        sequences.push(vec![length as u32; length]);
    }
    let batch = pack_sequences(sequences, 40, 0).unwrap();
    assert_eq!(batch.input_ids.len(), 40);
    for (r, length) in (1..=40usize).rev().enumerate() {
        let mut expected = vec![length as u32; length];
        expected.resize(40, 0);
        assert_eq!(batch.input_ids[r], expected);
        let mut mask = vec![1u32; length];
        mask.resize(40, 0);
        assert_eq!(batch.attention_mask[r], mask);
    }
}

#[test]
fn pack_dataset_hands_out_the_three_lists() {
    let (ids, mask, labels) = pack_dataset(vec![vec![1, 2], vec![3, 4], vec![5, 6]], 4, 9).unwrap();
    assert_eq!(ids, vec![vec![1, 2, 3, 4], vec![5, 6, 9, 9]]);
    assert_eq!(mask, vec![vec![1, 1, 1, 1], vec![1, 1, 0, 0]]);
    assert_eq!(labels, vec![vec![-100; 4]; 2]);
}

#[test]
fn pack_dataset_passes_errors_on() {
    assert_eq!(
        pack_dataset(vec![vec![1, 2, 3]], 2, 0),
        Err(PackError::OversizedSequence { length: 3, max_length: 2 })
    );
    assert_eq!(pack_dataset(vec![], 0, 0), Err(PackError::InvalidConfiguration));
}
