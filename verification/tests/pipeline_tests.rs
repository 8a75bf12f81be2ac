//! Tests of the wine-quality loader, the pipeline configuration, and
//! the stage sequencing.

use std::io::Write;

use wine_trees::errors::{PipelineError, ReadError};
use wine_trees::pipeline::{
    default_config, entropy_params, gini_params, next_stage, prepare_partitions, winequality,
    PipelineConfig, SplitQuality, Stage,
};

fn gzip(data: &[u8]) -> Vec<u8> {
    let mut enc = flate2::write::GzEncoder::new(Vec::new(), flate2::Compression::default());
    enc.write_all(data).unwrap();
    enc.finish().unwrap()
}

/// A small stand-in for the wine CSV: a header and 12 numeric columns,
/// the last one the quality score.
fn synthetic_wine_csv(rows: usize) -> Vec<u8> {
    let mut out = String::from(
        "fixed acidity,volatile acidity,citric acid,residual sugar,chlorides,free sulfur dioxide,total sulfur dioxide,density,pH,sulphates,alcohol,quality\n",
    );
    for i in 0..rows {
        for c in 0..11 {
            out.push_str(&format!("{}.{}", i, c));
            out.push(',');
        }
        out.push_str(&format!("{}\n", 3 + (i % 5)));
    }
    out.into_bytes()
}

#[test]
fn winequality_shapes() {
    let gz = gzip(&synthetic_wine_csv(30));
    let ds = winequality(&gz).unwrap();
    assert_eq!(ds.records.len(), 30);
    assert_eq!(ds.targets.len(), 30);
    assert_eq!(ds.feature_names.len(), 11);
    assert_eq!(ds.feature_names[0], "fixed acidity");
    assert_eq!(ds.feature_names[10], "alcohol");
    assert_eq!(ds.records[0].len(), 11);
    assert_eq!(ds.targets[0], 3);
    assert_eq!(ds.targets[1], 4);
}

#[test]
fn winequality_corrupt_stream() {
    let err = winequality(b"definitely not gzip").unwrap_err();
    assert_eq!(err, PipelineError::Read(ReadError::Decompression));
}

#[test]
fn winequality_ragged_content() {
    let gz = gzip(b"a,b\n1,2\n");
    // only two columns: the feature-name count cannot match
    match winequality(&gz).unwrap_err() {
        PipelineError::Load(_) => {},
        e => panic!("unexpected error {:?}", e),
    }
}

#[test]
fn default_config_values() {
    let cfg = default_config(true);
    assert_eq!(cfg.seed, 42);
    assert_eq!(cfg.ratio_num, 4);
    assert_eq!(cfg.ratio_den, 5);
    assert!(cfg.apply_scaling);
    assert!(!default_config(false).apply_scaling);
}

#[test]
fn model_parameters() {
    let g = gini_params();
    assert_eq!(g.split_quality, SplitQuality::Gini);
    assert_eq!(g.max_depth, Some(100));
    assert_eq!(g.min_weight_split, 1);
    assert_eq!(g.min_weight_leaf, 1);
    let e = entropy_params();
    assert_eq!(e.split_quality, SplitQuality::Entropy);
    assert_eq!(e.max_depth, Some(100));
    assert_eq!(e.min_weight_split, 10);
    assert_eq!(e.min_weight_leaf, 10);
}

fn run_order(cfg: &PipelineConfig) -> Vec<Stage> {
    let mut order = vec![Stage::Load];
    let mut s = Stage::Load;
    while s != Stage::Done {
        s = next_stage(s, cfg);
        order.push(s);
    }
    order
}

#[test]
fn stage_order_with_scaling() {
    let cfg = default_config(true);
    assert_eq!(run_order(&cfg), vec![
        Stage::Load,
        Stage::Split,
        Stage::Scale,
        Stage::FitGini,
        Stage::FitEntropy,
        Stage::Report,
        Stage::Done,
    ]);
}

#[test]
fn stage_order_without_scaling() {
    let cfg = default_config(false);
    assert_eq!(run_order(&cfg), vec![
        Stage::Load,
        Stage::Split,
        Stage::FitGini,
        Stage::FitEntropy,
        Stage::Report,
        Stage::Done,
    ]);
}

#[test]
fn prepare_partitions_end_to_end() {
    let gz = gzip(&synthetic_wine_csv(25));
    let cfg = default_config(false);
    let (train, test) = prepare_partitions(&gz, &cfg).unwrap();
    // floor(25 * 4/5) == 20
    assert_eq!(train.records.len(), 20);
    assert_eq!(test.records.len(), 5);
    assert_eq!(train.feature_names.len(), 11);
    // every sample lands in exactly one partition
    let mut firsts: Vec<Vec<u8>> = Vec::new();
    for r in train.records.iter().chain(test.records.iter()) {
        assert!(!firsts.contains(&r[0]));
        firsts.push(r[0].clone());
    }
    assert_eq!(firsts.len(), 25);
}

#[test]
fn prepare_partitions_is_deterministic() {
    let gz = gzip(&synthetic_wine_csv(12));
    let cfg = default_config(false);
    let (tr1, te1) = prepare_partitions(&gz, &cfg).unwrap();
    let (tr2, te2) = prepare_partitions(&gz, &cfg).unwrap();
    assert_eq!(tr1.records, tr2.records);
    assert_eq!(te1.targets, te2.targets);
    assert_eq!(te1.records, te2.records);
}
