//! The orchestration pipeline: loading the wine-quality dataset from
//! gzip-compressed CSV bytes, preparing the seeded train/test
//! partitions, and sequencing the stages a model-training driver runs.
//!
//! Model fitting itself (decision trees, feature scaling, confusion
//! matrices) is floating-point work delegated to an external library by
//! the driver; this module pins down everything the driver decides: the
//! data both models see, the stage order, and the hyperparameters of
//! the two models.

use vstd::prelude::*;

use crate::dataset::{from_matrix, from_matrix_spec, Dataset};
use crate::decode::{array_from_csv_gz, decode_gz_spec};
use crate::errors::{PipelineError, SplitError};
use crate::split::{perm_of, shuffle_split, train_count};

verus! {

/// The comma delimiter of the wine-quality CSV.
pub const WINE_SEPARATOR: u8 = 44;

/// The label column of the wine-quality CSV: the quality score follows
/// the eleven feature columns.
pub const WINE_LABEL_COLUMN: usize = 11;

/// The fixed, ordered feature names of the wine-quality dataset.
pub open spec fn wine_feature_names() -> Seq<Seq<char>> {
    seq![
        "fixed acidity"@,
        "volatile acidity"@,
        "citric acid"@,
        "residual sugar"@,
        "chlorides"@,
        "free sulfur dioxide"@,
        "total sulfur dioxide"@,
        "density"@,
        "pH"@,
        "sulphates"@,
        "alcohol"@,
    ]
}

/// What loading the wine-quality dataset from gzip-compressed CSV bytes
/// yields: the feature rows and labels, or the first error met while
/// decompressing, decoding, or casting labels.
pub open spec fn wine_load_spec(b: Seq<u8>) -> Result<
    (Seq<Seq<Seq<u8>>>, Seq<usize>),
    PipelineError,
> {
    match decode_gz_spec(b, true, WINE_SEPARATOR) {
        Err(e) => Err(PipelineError::Read(e)),
        Ok(mat) => match from_matrix_spec(mat, WINE_LABEL_COLUMN as int, wine_feature_names()) {
            Err(e) => Err(PipelineError::Load(e)),
            Ok(p) => Ok(p),
        },
    }
}

/// The feature names of the wine-quality dataset, executable.
fn wine_names() -> (r: Vec<String>)
    ensures
        r.deep_view() == wine_feature_names(),
{
    let mut v: Vec<String> = Vec::new();
    v.push("fixed acidity".to_owned());
    v.push("volatile acidity".to_owned());
    v.push("citric acid".to_owned());
    v.push("residual sugar".to_owned());
    v.push("chlorides".to_owned());
    v.push("free sulfur dioxide".to_owned());
    v.push("total sulfur dioxide".to_owned());
    v.push("density".to_owned());
    v.push("pH".to_owned());
    v.push("sulphates".to_owned());
    v.push("alcohol".to_owned());
    proof {
        assert(v.deep_view() =~~= wine_feature_names());
    }
    v
}

/// Load the wine-quality dataset from gzip-compressed CSV bytes: skip
/// the header, slice the eleven feature columns from the quality
/// column, cast the quality scores to class indices, and attach the
/// feature names. The result is exactly `wine_load_spec` on the bytes.
pub fn winequality(gz_bytes: &[u8]) -> (r: Result<Dataset, PipelineError>)
    ensures
        match r {
            Ok(ds) => wine_load_spec(gz_bytes@) == Ok::<
                (Seq<Seq<Seq<u8>>>, Seq<usize>),
                PipelineError,
            >((ds.recs(), ds.tgts())) && ds.names() == wine_feature_names() && ds.wf(),
            Err(e) => wine_load_spec(gz_bytes@) == Err::<
                (Seq<Seq<Seq<u8>>>, Seq<usize>),
                PipelineError,
            >(e),
        },
{
    match array_from_csv_gz(gz_bytes, true, WINE_SEPARATOR) {
        Err(e) => Err(PipelineError::Read(e)),
        Ok(m) => {
            match from_matrix(&m, WINE_LABEL_COLUMN, wine_names()) {
                Err(e) => Err(PipelineError::Load(e)),
                Ok(ds) => Ok(ds),
            }
        },
    }
}

/// The split-quality criterion of a tree model.
#[derive(Clone, Copy, Debug, PartialEq, Eq, Structural)]
pub enum SplitQuality {
    /// Score candidate splits by Gini impurity.
    Gini,
    /// Score candidate splits by entropy gain.
    Entropy,
}

/// The hyperparameters of one tree model. The minimum weights are whole
/// sample counts.
#[derive(Clone, Copy, Debug, PartialEq, Eq, Structural)]
pub struct TreeParams {
    /// The split-quality criterion.
    pub split_quality: SplitQuality,
    /// The maximum tree depth, or none for unbounded.
    pub max_depth: Option<usize>,
    /// The minimum sample weight to split a node.
    pub min_weight_split: u64,
    /// The minimum sample weight of a leaf.
    pub min_weight_leaf: u64,
}

/// The Gini model of the comparison: depth at most 100, split and leaf
/// weights at least 1.
pub fn gini_params() -> (r: TreeParams)
    ensures
        r == (TreeParams {
            split_quality: SplitQuality::Gini,
            max_depth: Some(100usize),
            min_weight_split: 1u64,
            min_weight_leaf: 1u64,
        }),
{
    TreeParams {
        split_quality: SplitQuality::Gini,
        max_depth: Some(100),
        min_weight_split: 1,
        min_weight_leaf: 1,
    }
}

/// The entropy model of the comparison: depth at most 100, split and
/// leaf weights at least 10.
pub fn entropy_params() -> (r: TreeParams)
    ensures
        r == (TreeParams {
            split_quality: SplitQuality::Entropy,
            max_depth: Some(100usize),
            min_weight_split: 10u64,
            min_weight_leaf: 10u64,
        }),
{
    TreeParams {
        split_quality: SplitQuality::Entropy,
        max_depth: Some(100),
        min_weight_split: 10,
        min_weight_leaf: 10,
    }
}

/// One run's configuration: the shuffle seed, the train ratio as a
/// fraction, and whether the standardizing scaler runs before fitting.
#[derive(Clone, Copy, Debug, PartialEq, Eq, Structural)]
pub struct PipelineConfig {
    /// The seed of the shuffle.
    pub seed: u64,
    /// The numerator of the train ratio.
    pub ratio_num: usize,
    /// The denominator of the train ratio.
    pub ratio_den: usize,
    /// Whether to standardize features on the train partition first.
    pub apply_scaling: bool,
}

/// The configuration both comparison runs use: seed 42, ratio 4/5.
pub fn default_config(apply_scaling: bool) -> (r: PipelineConfig)
    ensures
        r == (PipelineConfig { seed: 42u64, ratio_num: 4usize, ratio_den: 5usize, apply_scaling }),
{
    PipelineConfig { seed: 42, ratio_num: 4, ratio_den: 5, apply_scaling }
}

/// The stages of one pipeline run, in the order the driver performs
/// them.
#[derive(Clone, Copy, Debug, PartialEq, Eq, Structural)]
pub enum Stage {
    /// Decode the dataset.
    Load,
    /// Shuffle and split it.
    Split,
    /// Fit the scaler on the train partition and transform both.
    Scale,
    /// Fit and evaluate the Gini model.
    FitGini,
    /// Fit and evaluate the entropy model.
    FitEntropy,
    /// Emit the tree description of the Gini model.
    Report,
    /// Nothing left to do.
    Done,
}

/// The stage that follows `s`: the linear order load, split, an
/// optional scale, the two fits, the report. Scaling is skipped exactly
/// when the configuration says so.
pub open spec fn next_stage_spec(s: Stage, apply_scaling: bool) -> Stage {
    match s {
        Stage::Load => Stage::Split,
        Stage::Split => if apply_scaling {
            Stage::Scale
        } else {
            Stage::FitGini
        },
        Stage::Scale => Stage::FitGini,
        Stage::FitGini => Stage::FitEntropy,
        Stage::FitEntropy => Stage::Report,
        Stage::Report => Stage::Done,
        Stage::Done => Stage::Done,
    }
}

/// Advance the pipeline by one stage, exactly along `next_stage_spec`.
pub fn next_stage(s: Stage, cfg: &PipelineConfig) -> (r: Stage)
    ensures
        r == next_stage_spec(s, cfg.apply_scaling),
{
    match s {
        Stage::Load => Stage::Split,
        Stage::Split => if cfg.apply_scaling {
            Stage::Scale
        } else {
            Stage::FitGini
        },
        Stage::Scale => Stage::FitGini,
        Stage::FitGini => Stage::FitEntropy,
        Stage::FitEntropy => Stage::Report,
        Stage::Report => Stage::Done,
        Stage::Done => Stage::Done,
    }
}

/// Load the dataset from gzip-compressed CSV bytes and split it under
/// the configuration: both model fits then see exactly these
/// partitions. The train partition takes the first
/// `floor(ratio * n)` indices of the seed's shuffle order, the test
/// partition the rest; the first error of any stage propagates.
pub fn prepare_partitions(gz_bytes: &[u8], cfg: &PipelineConfig) -> (r: Result<
    (Dataset, Dataset),
    PipelineError,
>)
    ensures
        match r {
            Ok(parts) => {
                let ld = wine_load_spec(gz_bytes@)->Ok_0;
                let n = ld.0.len();
                let t = train_count(n, cfg.ratio_num as nat, cfg.ratio_den as nat);
                let p = perm_of(cfg.seed, n);
                &&& wine_load_spec(gz_bytes@) is Ok
                &&& 0 < cfg.ratio_num < cfg.ratio_den
                &&& n > 0
                &&& parts.0.wf()
                &&& parts.1.wf()
                &&& parts.0.recs().len() == t
                &&& parts.0.recs().len() + parts.1.recs().len() == n
                &&& parts.0.names() == wine_feature_names()
                &&& parts.1.names() == wine_feature_names()
                &&& forall|i: int|
                    0 <= i < t ==> #[trigger] parts.0.recs()[i] == ld.0[p[i] as int]
                        && parts.0.tgts()[i] == ld.1[p[i] as int]
                &&& forall|i: int|
                    0 <= i < n - t ==> #[trigger] parts.1.recs()[i] == ld.0[p[t + i] as int]
                        && parts.1.tgts()[i] == ld.1[p[t + i] as int]
            },
            Err(PipelineError::Split(e)) => {
                &&& wine_load_spec(gz_bytes@) is Ok
                &&& e is InvalidRatio ==> !(0 < cfg.ratio_num < cfg.ratio_den)
                &&& e is InsufficientSamples ==> 0 < cfg.ratio_num < cfg.ratio_den
                    && wine_load_spec(gz_bytes@)->Ok_0.0.len() == 0
            },
            Err(e) => wine_load_spec(gz_bytes@) == Err::<
                (Seq<Seq<Seq<u8>>>, Seq<usize>),
                PipelineError,
            >(e),
        },
{
    let ds = match winequality(gz_bytes) {
        Ok(ds) => ds,
        Err(e) => {
            return Err(e);
        },
    };
    match shuffle_split(&ds, cfg.seed, cfg.ratio_num, cfg.ratio_den) {
        Ok(parts) => Ok(parts),
        Err(e) => Err(PipelineError::Split(e)),
    }
}

} // verus!
