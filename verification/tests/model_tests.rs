//! Tests that run the delegated model pipeline (scaler, decision
//! trees, confusion matrix) on partitions prepared by the library.

use linfa::prelude::ToConfusionMatrix;
use linfa::traits::{Fit, Predict, Transformer};
use linfa_preprocessing::linear_scaling::LinearScaler;
use linfa_trees::{DecisionTree, SplitQuality};
use ndarray::{Array1, Array2};

use wine_trees::dataset::Dataset;
use wine_trees::split::shuffle_split;

/// Convert a library dataset into a dense float dataset for the
/// delegated models.
fn to_linfa(ds: &Dataset) -> linfa::Dataset<f64, usize, ndarray::Ix1> {
    let n = ds.records.len();
    let f = ds.feature_names.len();
    let mut flat: Vec<f64> = Vec::with_capacity(n * f);
    for row in &ds.records {
        for cell in row {
            flat.push(std::str::from_utf8(cell).unwrap().parse::<f64>().unwrap());
        }
    }
    let records = Array2::from_shape_vec((n, f), flat).unwrap();
    let targets = Array1::from_vec(ds.targets.clone());
    linfa::Dataset::new(records, targets)
        .with_feature_names(ds.feature_names.iter().map(|s| s.as_str()).collect::<Vec<_>>())
}

/// A synthetic 20-row, 3-feature + 1-label dataset whose label follows
/// the first feature, so a small tree can learn it.
fn synthetic() -> Dataset {
    let mut records: Vec<Vec<Vec<u8>>> = Vec::new();
    let mut targets: Vec<usize> = Vec::new();
    for i in 0..20usize {
        let class = i / 10;
        let x0 = (i as f64) + if class == 1 { 100.0 } else { 0.0 };
        records.push(vec![
            format!("{:.2}", x0).into_bytes(),
            format!("{:.2}", (i as f64) * 0.5).into_bytes(),
            "1.0".as_bytes().to_vec(),
        ]);
        targets.push(class);
    }
    Dataset {
        records,
        targets,
        feature_names: vec!["x0".to_string(), "x1".to_string(), "x2".to_string()],
    }
}

#[test]
fn end_to_end_synthetic() {
    // 20 rows, seed 42, ratio 4/5: train has 16 rows, test has 4
    let ds = synthetic();
    let (train, test) = shuffle_split(&ds, 42, 4, 5).unwrap();
    assert_eq!(train.records.len(), 16);
    assert_eq!(test.records.len(), 4);

    let train_l = to_linfa(&train);
    let test_l = to_linfa(&test);
    let model = DecisionTree::params()
        .split_quality(SplitQuality::Gini)
        .max_depth(Some(100))
        .min_weight_split(1.0)
        .min_weight_leaf(1.0)
        .fit(&train_l)
        .unwrap();
    let pred = model.predict(&test_l);
    let cm = pred.confusion_matrix(&test_l).unwrap();
    let acc = cm.accuracy();
    assert!((0.0..=1.0).contains(&acc));

    // accuracy agrees with the fraction of matching label pairs, and the
    // pair counts split the test labels class by class
    let truth: Vec<usize> = test.targets.clone();
    let predicted: Vec<usize> = pred.iter().copied().collect();
    assert_eq!(truth.len(), predicted.len());
    let correct = truth.iter().zip(predicted.iter()).filter(|(a, b)| a == b).count();
    assert!((acc - correct as f32 / truth.len() as f32).abs() < 1e-6);
    let classes: Vec<usize> = vec![0, 1];
    for c in &classes {
        let row_sum: usize = truth.iter().filter(|t| *t == c).count();
        let pair_sum: usize = classes
            .iter()
            .map(|p| {
                truth
                    .iter()
                    .zip(predicted.iter())
                    .filter(|(t, q)| *t == c && *q == p)
                    .count()
            })
            .sum();
        assert_eq!(row_sum, pair_sum);
    }
}

#[test]
fn both_criteria_fit_the_wine_shape() {
    let ds = synthetic();
    let (train, test) = shuffle_split(&ds, 42, 4, 5).unwrap();
    let train_l = to_linfa(&train);
    let test_l = to_linfa(&test);
    for q in [SplitQuality::Gini, SplitQuality::Entropy] {
        let model = DecisionTree::params()
            .split_quality(q)
            .max_depth(Some(100))
            .min_weight_split(1.0)
            .min_weight_leaf(1.0)
            .fit(&train_l)
            .unwrap();
        let pred = model.predict(&test_l);
        let cm = pred.confusion_matrix(&test_l).unwrap();
        assert!((0.0..=1.0).contains(&cm.accuracy()));
        // the features the tree used are feature indices of the dataset
        for f in model.features() {
            assert!(f < 3);
        }
    }
}

#[test]
fn scaler_standardizes_train() {
    // fit on train, applied to train: near-zero mean and unit spread per
    // non-constant feature
    let ds = synthetic();
    let (train, _test) = shuffle_split(&ds, 42, 4, 5).unwrap();
    let train_l = to_linfa(&train);
    let scaler = LinearScaler::standard().fit(&train_l).unwrap();
    let scaled = scaler.transform(train_l);
    let recs = scaled.records();
    let n = recs.nrows() as f64;
    for col in [0usize, 1] {
        let mean: f64 = recs.column(col).sum() / n;
        let var: f64 = recs.column(col).iter().map(|x| (x - mean) * (x - mean)).sum::<f64>() / n;
        assert!(mean.abs() < 1e-9, "mean of column {col} is {mean}");
        assert!((var.sqrt() - 1.0).abs() < 1e-9, "std of column {col} is {}", var.sqrt());
    }
}

#[test]
fn scaler_constant_column_stays_finite() {
    // the third feature is constant: the transform must not divide by
    // zero
    let ds = synthetic();
    let (train, test) = shuffle_split(&ds, 42, 4, 5).unwrap();
    let train_l = to_linfa(&train);
    let test_l = to_linfa(&test);
    let scaler = LinearScaler::standard().fit(&train_l).unwrap();
    for part in [scaler.transform(train_l), scaler.transform(test_l)] {
        for v in part.records().iter() {
            assert!(v.is_finite(), "scaled value {v} is not finite");
        }
    }
}

#[test]
fn tikz_description_well_formed() {
    // the tree description a report would write is non-empty, well-formed
    // markup
    let ds = synthetic();
    let (train, _test) = shuffle_split(&ds, 42, 4, 5).unwrap();
    let train_l = to_linfa(&train);
    let model = DecisionTree::params()
        .split_quality(SplitQuality::Gini)
        .max_depth(Some(100))
        .min_weight_split(1.0)
        .min_weight_leaf(1.0)
        .fit(&train_l)
        .unwrap();
    let doc = model.export_to_tikz().with_legend().to_string();
    assert!(!doc.is_empty());
    assert!(doc.contains("documentclass"));
    assert!(doc.contains("forest"));
    assert!(doc.contains("end{document}"));
}
