use starseed_nn::split::{
    partition, rising_order, shuffle_split, shuffled_order, validation_size, InputError,
};

fn rounded(len: usize, val_split: f32) -> usize {
    ((len as f32) * val_split).round() as usize
}

#[test]
fn validation_split_bound() {
    // val_split 0.99 of 3 samples rounds to 3; one sample must stay to train on.
    let r = rounded(3, 0.99);
    assert_eq!(r, 3);
    assert_eq!(validation_size(3, r), 2);
}

#[test]
fn validation_size_is_the_rounded_share_when_it_fits() {
    assert_eq!(validation_size(10, rounded(10, 0.2)), 2);
    assert_eq!(validation_size(10, 0), 0);
    assert_eq!(validation_size(10, 9), 9);
    assert_eq!(validation_size(10, 10), 9);
    assert_eq!(validation_size(10, usize::MAX), 9);
}

#[test]
fn validation_size_of_one_sample_is_zero() {
    assert_eq!(validation_size(1, 0), 0);
    assert_eq!(validation_size(1, 1), 0);
    assert_eq!(validation_size(1, 7), 0);
}

#[test]
fn validation_size_of_nothing_is_zero() {
    assert_eq!(validation_size(0, 0), 0);
    assert_eq!(validation_size(0, 5), 0);
}

#[test]
fn rising_order_counts_up() {
    assert_eq!(rising_order(0), Vec::<usize>::new());
    assert_eq!(rising_order(4), vec![0, 1, 2, 3]);
}

#[test]
fn partition_cuts_prefix_and_suffix() {
    let parts = partition(vec![3, 0, 4, 1, 2], 2);
    assert_eq!(parts.validation, vec![3, 0]);
    assert_eq!(parts.training, vec![4, 1, 2]);
}

#[test]
fn partition_leaves_one_to_train_on() {
    let parts = partition(vec![2, 0, 1], 3);
    assert_eq!(parts.validation, vec![2, 0]);
    assert_eq!(parts.training, vec![1]);
    let parts = partition(vec![0], 1);
    assert_eq!(parts.validation, Vec::<usize>::new());
    assert_eq!(parts.training, vec![0]);
}

#[test]
fn partition_of_nothing_is_empty() {
    let parts = partition(Vec::new(), 4);
    assert!(parts.validation.is_empty());
    assert!(parts.training.is_empty());
}

#[test]
fn shuffled_order_is_a_permutation() {
    let mut rng = rand::thread_rng();
    for len in [0usize, 1, 2, 17, 200] {
        let mut order = shuffled_order(len, &mut rng);
        assert_eq!(order.len(), len);
        order.sort();
        assert_eq!(order, rising_order(len));
    }
}

#[test]
fn shuffled_order_is_shuffled() {
    // The chance that a shuffle of 200 indices leaves them as they were is
    // one in 200 factorial.
    let mut rng = rand::thread_rng();
    assert_ne!(shuffled_order(200, &mut rng), rising_order(200));
}

#[test]
fn shuffle_split_refuses_an_empty_dataset() {
    let mut rng = rand::thread_rng();
    assert_eq!(shuffle_split(0, 0, &mut rng).err(), Some(InputError::NoSamples));
    assert_eq!(shuffle_split(0, 3, &mut rng).err(), Some(InputError::NoSamples));
}

#[test]
fn shuffle_split_holds_every_sample_once() {
    let mut rng = rand::thread_rng();
    let parts = shuffle_split(50, rounded(50, 0.2), &mut rng).unwrap();
    assert_eq!(parts.validation.len(), 10);
    assert_eq!(parts.training.len(), 40);
    let mut all: Vec<usize> = parts.validation.clone();
    all.extend(parts.training.iter().copied());
    all.sort();
    assert_eq!(all, rising_order(50));
}

#[test]
fn shuffle_split_caps_the_validation_part() {
    let mut rng = rand::thread_rng();
    let parts = shuffle_split(3, rounded(3, 0.99), &mut rng).unwrap();
    assert_eq!(parts.validation.len(), 2);
    assert_eq!(parts.training.len(), 1);
    let parts = shuffle_split(1, rounded(1, 0.9), &mut rng).unwrap();
    assert_eq!(parts.validation.len(), 0);
    assert_eq!(parts.training, vec![0]);
}
