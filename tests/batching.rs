use bran::batching::batch_bounds;

#[test]
fn batches_are_contiguous_and_last_is_short() {
    assert_eq!(batch_bounds(10, 3), vec![(0, 3), (3, 6), (6, 9), (9, 10)]);
}

#[test]
fn batches_divide_evenly() {
    assert_eq!(batch_bounds(8, 4), vec![(0, 4), (4, 8)]);
}

#[test]
fn batch_larger_than_data_is_one_batch() {
    assert_eq!(batch_bounds(4, 10), vec![(0, 4)]);
}

#[test]
fn no_samples_no_batches() {
    assert_eq!(batch_bounds(0, 4), Vec::<(usize, usize)>::new());
}

#[test]
fn batch_of_one_sample_each() {
    assert_eq!(batch_bounds(3, 1), vec![(0, 1), (1, 2), (2, 3)]);
}
