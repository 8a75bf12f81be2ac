//! Error taxonomy of the pipeline: malformed input data, corrupt
//! compressed streams, labels that are no class index, and misuse of the
//! split stage. Every stage fails fast with the first error it meets.

use vstd::prelude::*;

verus! {

/// An error of the CSV decoder or of the compressed-stream adapter.
#[derive(Clone, Copy, Debug, PartialEq, Eq, Structural)]
pub enum ReadError {
    /// A data row's field count differs from the width set by the first
    /// row of the input. `row` is the 0-based index among the data rows.
    Format { row: usize },
    /// A field is not in standard decimal notation. `row` is the 0-based
    /// index among the data rows, `col` the 0-based field index.
    Parse { row: usize, col: usize },
    /// The input holds zero data rows, so the matrix dimensions are
    /// undefined.
    EmptyInput,
    /// The gzip framing of a compressed input is malformed.
    Decompression,
}

/// An error of the dataset loader.
#[derive(Clone, Copy, Debug, PartialEq, Eq, Structural)]
pub enum LoadError {
    /// The designated label column index is not a column of the matrix.
    LabelColumn,
    /// The number of feature names differs from the feature column count.
    FeatureNameCount,
    /// A label cell is not representable as a class index: it is
    /// negative, too large for the index type, or in exponent notation.
    /// `row` is the 0-based sample index.
    LabelCast { row: usize },
}

/// An error of the split/shuffle stage.
#[derive(Clone, Copy, Debug, PartialEq, Eq, Structural)]
pub enum SplitError {
    /// The split ratio is outside the open interval (0, 1).
    InvalidRatio,
    /// The dataset holds zero samples, so there is nothing to split.
    InsufficientSamples,
}

/// An error of the whole pipeline: the first failure of any stage.
#[derive(Clone, Copy, Debug, PartialEq, Eq, Structural)]
pub enum PipelineError {
    /// The decoder or the compressed-stream adapter failed.
    Read(ReadError),
    /// The dataset loader failed.
    Load(LoadError),
    /// The split stage was misused.
    Split(SplitError),
}

} // verus!
