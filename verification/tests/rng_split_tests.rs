//! Tests of the seeded generator, the label cast, the loader, and the
//! shuffle/split stage.

use rand::{Rng, SeedableRng};

use wine_trees::dataset::{from_matrix, label_cast, Dataset};
use wine_trees::decode::array_from_csv;
use wine_trees::errors::{LoadError, SplitError};
use wine_trees::rng::SeededRng;
use wine_trees::split::{shuffle_split, shuffled_indices};

fn s(v: &str) -> Vec<u8> {
    v.as_bytes().to_vec()
}

#[test]
fn rng_matches_reference_generator() {
    // the verified generator draws the same sequence as the reference
    // small-state generator for the same seed
    for seed in [0u64, 1, 42, 0xdeadbeef] {
        let mut ours = SeededRng::new(seed);
        let mut theirs = rand::rngs::SmallRng::seed_from_u64(seed);
        for _ in 0..1000 {
            assert_eq!(ours.next_u64(), theirs.next_u64());
        }
    }
}

#[test]
fn shuffle_is_a_permutation() {
    for n in [0usize, 1, 2, 10, 101] {
        let p = shuffled_indices(n, 42);
        let mut sorted = p.clone();
        sorted.sort();
        let ident: Vec<usize> = (0..n).collect();
        assert_eq!(sorted, ident);
    }
}

#[test]
fn same_seed_same_permutation() {
    // same seed, same permutation, across two independent runs
    let a = shuffled_indices(57, 42);
    let b = shuffled_indices(57, 42);
    assert_eq!(a, b);
    let c = shuffled_indices(57, 43);
    assert_ne!(a, c);
}

#[test]
fn label_cast_truncates_toward_zero() {
    assert_eq!(label_cast(&s("5")), Some(5));
    assert_eq!(label_cast(&s("5.7")), Some(5));
    assert_eq!(label_cast(&s("+12.0")), Some(12));
    assert_eq!(label_cast(&s("0")), Some(0));
    assert_eq!(label_cast(&s("-0.5")), Some(0));
}

#[test]
fn label_cast_rejects_bad_class_indices() {
    // negative after truncation
    assert_eq!(label_cast(&s("-1")), None);
    assert_eq!(label_cast(&s("-2.5")), None);
    // exponent notation
    assert_eq!(label_cast(&s("1e3")), None);
    // out of range of the index type
    assert_eq!(label_cast(&s("99999999999999999999999999")), None);
}

fn names(v: &[&str]) -> Vec<String> {
    v.iter().map(|x| x.to_string()).collect()
}

#[test]
fn loader_slices_features_and_labels() {
    let m = array_from_csv(b"a,b,t\n1,2,5\n3,4,6.9\n", true, b',').unwrap();
    let ds = from_matrix(&m, 2, names(&["a", "b"])).unwrap();
    assert_eq!(ds.records.len(), 2);
    assert_eq!(ds.targets, vec![5, 6]);
    assert_eq!(ds.records[0], vec![b"1".to_vec(), b"2".to_vec()]);
    assert_eq!(ds.records[1], vec![b"3".to_vec(), b"4".to_vec()]);
    assert_eq!(ds.feature_names, names(&["a", "b"]));
}

#[test]
fn loader_errors() {
    let m = array_from_csv(b"a,b,t\n1,2,5\n3,4,-6\n", true, b',').unwrap();
    assert_eq!(from_matrix(&m, 3, names(&["a", "b"])).unwrap_err(), LoadError::LabelColumn);
    assert_eq!(
        from_matrix(&m, 2, names(&["a", "b", "c"])).unwrap_err(),
        LoadError::FeatureNameCount
    );
    assert_eq!(from_matrix(&m, 2, names(&["a", "b"])).unwrap_err(), LoadError::LabelCast {
        row: 1
    });
}

fn small_dataset(n: usize) -> Dataset {
    Dataset {
        records: (0..n).map(|i| vec![format!("{i}").into_bytes()]).collect(),
        targets: (0..n).map(|i| i % 3).collect(),
        feature_names: names(&["f"]),
    }
}

#[test]
fn split_sizes_and_partition() {
    // train.size + test.size == n, the index sets are disjoint and cover everything
    let ds = small_dataset(10);
    let (train, test) = shuffle_split(&ds, 42, 4, 5).unwrap();
    assert_eq!(train.records.len(), 8);
    assert_eq!(test.records.len(), 2);
    let mut seen: Vec<Vec<u8>> = Vec::new();
    for r in train.records.iter().chain(test.records.iter()) {
        assert!(!seen.contains(&r[0]));
        seen.push(r[0].clone());
    }
    assert_eq!(seen.len(), 10);
}

#[test]
fn split_count_is_floor_of_ratio() {
    let ds = small_dataset(7);
    // floor(7 * 1/2) == 3
    let (train, test) = shuffle_split(&ds, 1, 1, 2).unwrap();
    assert_eq!(train.records.len(), 3);
    assert_eq!(test.records.len(), 4);
}

#[test]
fn same_seed_same_split_membership() {
    let ds = small_dataset(20);
    let (tr1, te1) = shuffle_split(&ds, 42, 4, 5).unwrap();
    let (tr2, te2) = shuffle_split(&ds, 42, 4, 5).unwrap();
    assert_eq!(tr1.records, tr2.records);
    assert_eq!(tr1.targets, tr2.targets);
    assert_eq!(te1.records, te2.records);
    assert_eq!(te1.targets, te2.targets);
}

#[test]
fn split_names_copied_unchanged() {
    let ds = small_dataset(4);
    let (train, test) = shuffle_split(&ds, 9, 1, 4).unwrap();
    assert_eq!(train.feature_names, names(&["f"]));
    assert_eq!(test.feature_names, names(&["f"]));
}

#[test]
fn split_errors() {
    let ds = small_dataset(5);
    assert_eq!(shuffle_split(&ds, 42, 0, 5).unwrap_err(), SplitError::InvalidRatio);
    assert_eq!(shuffle_split(&ds, 42, 5, 5).unwrap_err(), SplitError::InvalidRatio);
    assert_eq!(shuffle_split(&ds, 42, 7, 5).unwrap_err(), SplitError::InvalidRatio);
    let empty = small_dataset(0);
    assert_eq!(shuffle_split(&empty, 42, 4, 5).unwrap_err(), SplitError::InsufficientSamples);
}
