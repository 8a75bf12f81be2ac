//! The dataset loader: slicing a raw matrix into feature columns and a
//! label column, casting labels to integer class indices, and attaching
//! feature names.
//!
//! The label cast truncates a decimal-notation value toward zero, as an
//! integer cast would, but makes the edge cases explicit errors instead
//! of silently saturating: a label that is negative after truncation,
//! too large for the index type, or written in exponent notation is a
//! `LabelCast` error.

use vstd::prelude::*;

use crate::decode::{is_digit, is_numeric, RawMatrix};
use crate::errors::LoadError;

verus! {

/// Whether the field starts with an explicit sign byte.
pub open spec fn has_sign(f: Seq<u8>) -> bool {
    f.len() > 0 && (f.first() == 43 || f.first() == 45)
}

/// Whether the field starts with a minus sign.
pub open spec fn is_negative(f: Seq<u8>) -> bool {
    f.len() > 0 && f.first() == 45
}

/// The longest digit prefix of `s`.
pub open spec fn digit_prefix(s: Seq<u8>) -> Seq<u8>
    decreases s.len(),
{
    if s.len() > 0 && is_digit(s.first()) {
        seq![s.first()] + digit_prefix(s.drop_first())
    } else {
        Seq::empty()
    }
}

/// The value of a digit string read in base 10.
pub open spec fn digits_val(ds: Seq<u8>) -> int
    decreases ds.len(),
{
    if ds.len() == 0 {
        0
    } else {
        digits_val(ds.drop_last()) * 10 + (ds.last() - 48)
    }
}

/// The class index a numeric field casts to: the integer part of the
/// value, truncated toward zero. `None` when digits remain out of reach
/// of plain truncation (exponent notation), when the integer part
/// overflows the index type, or when the value is negative after
/// truncation.
pub open spec fn label_of(f: Seq<u8>) -> Option<usize> {
    let body = if has_sign(f) {
        f.drop_first()
    } else {
        f
    };
    let ip = digit_prefix(body);
    let after_int = body.skip(ip.len() as int);
    let rest = if after_int.len() > 0 && after_int.first() == 46 {
        after_int.drop_first().skip(digit_prefix(after_int.drop_first()).len() as int)
    } else {
        after_int
    };
    if rest.len() > 0 {
        None
    } else if digits_val(ip) > usize::MAX {
        None
    } else if is_negative(f) && digits_val(ip) > 0 {
        None
    } else {
        Some(digits_val(ip) as usize)
    }
}

/// A row with the column at `c` removed.
pub open spec fn drop_col(row: Seq<Seq<u8>>, c: int) -> Seq<Seq<u8>> {
    row.subrange(0, c) + row.subrange(c + 1, row.len() as int)
}

/// Load the rows of a matrix in order: split off the label column and
/// cast it; `i` is the 0-based index of the first of `mat` among the
/// samples.
pub open spec fn load_rows(mat: Seq<Seq<Seq<u8>>>, label_col: int, i: int) -> Result<
    (Seq<Seq<Seq<u8>>>, Seq<usize>),
    LoadError,
>
    decreases mat.len(),
{
    if mat.len() == 0 {
        Ok((Seq::empty(), Seq::empty()))
    } else {
        match label_of(mat.first()[label_col]) {
            None => Err(LoadError::LabelCast { row: i as usize }),
            Some(t) => match load_rows(mat.drop_first(), label_col, i + 1) {
                Ok(p) => Ok(
                    (
                        Seq::empty().push(drop_col(mat.first(), label_col)) + p.0,
                        Seq::empty().push(t) + p.1,
                    ),
                ),
                Err(e) => Err(e),
            },
        }
    }
}

/// What loading a matrix into a dataset yields: the feature rows and
/// the cast labels, or the first error met.
pub open spec fn from_matrix_spec(
    mat: Seq<Seq<Seq<u8>>>,
    label_col: int,
    names: Seq<Seq<char>>,
) -> Result<(Seq<Seq<Seq<u8>>>, Seq<usize>), LoadError> {
    if label_col >= mat[0].len() {
        Err(LoadError::LabelColumn)
    } else if names.len() != mat[0].len() - 1 {
        Err(LoadError::FeatureNameCount)
    } else {
        load_rows(mat, label_col, 0)
    }
}

/// A labeled dataset: numeric feature cells, integer class labels, and
/// one name per feature column.
#[derive(Debug)]
pub struct Dataset {
    /// The feature rows, one per sample.
    pub records: Vec<Vec<Vec<u8>>>,
    /// The class label of each sample.
    pub targets: Vec<usize>,
    /// The ordered feature names.
    pub feature_names: Vec<String>,
}

impl Dataset {
    /// The feature rows as sequences of cell byte strings.
    pub open spec fn recs(self) -> Seq<Seq<Seq<u8>>> {
        self.records.deep_view()
    }

    /// The labels as a sequence.
    pub open spec fn tgts(self) -> Seq<usize> {
        self.targets@
    }

    /// The feature names as character sequences.
    pub open spec fn names(self) -> Seq<Seq<char>> {
        self.feature_names.deep_view()
    }

    /// Well-formed: one label per row, every row as wide as the name
    /// list, every cell numeric.
    pub open spec fn wf(self) -> bool {
        &&& self.recs().len() == self.tgts().len()
        &&& forall|i: int|
            0 <= i < self.recs().len() ==> #[trigger] self.recs()[i].len() == self.names().len()
        &&& forall|i: int, j: int|
            0 <= i < self.recs().len() && 0 <= j < self.recs()[i].len() ==> is_numeric(
                #[trigger] self.recs()[i][j],
            )
    }

    /// The number of samples.
    pub fn n_samples(&self) -> (r: usize)
        ensures
            r == self.recs().len(),
    {
        self.records.len()
    }

    /// The number of feature columns.
    pub fn n_features(&self) -> (r: usize)
        ensures
            r == self.names().len(),
    {
        self.feature_names.len()
    }
}

/// `digits_val` of a digit string is nonnegative.
proof fn lemma_digits_val_nonneg(ds: Seq<u8>)
    requires
        forall|k: int| 0 <= k < ds.len() ==> is_digit(#[trigger] ds[k]),
    ensures
        digits_val(ds) >= 0,
    decreases ds.len(),
{
    if ds.len() > 0 {
        assert(forall|k: int|
            0 <= k < ds.len() - 1 ==> #[trigger] ds.drop_last()[k] == ds[k]);
        lemma_digits_val_nonneg(ds.drop_last());
    }
}

/// A digit string is worth at least any of its prefixes.
proof fn lemma_digits_val_prefix(ds: Seq<u8>, m: int)
    requires
        0 <= m <= ds.len(),
        forall|k: int| 0 <= k < ds.len() ==> is_digit(#[trigger] ds[k]),
    ensures
        digits_val(ds.take(m)) <= digits_val(ds),
    decreases ds.len(),
{
    if m < ds.len() {
        assert(forall|k: int|
            0 <= k < ds.len() - 1 ==> #[trigger] ds.drop_last()[k] == ds[k]);
        assert(ds.take(m) =~= ds.drop_last().take(m));
        lemma_digits_val_prefix(ds.drop_last(), m);
        lemma_digits_val_nonneg(ds.drop_last());
    } else {
        assert(ds.take(m) =~= ds);
    }
}

/// The digit prefix of `s` is `s.take(e)` when the first `e` bytes are
/// digits and the byte at `e` (if any) is not.
proof fn lemma_digit_prefix_window(s: Seq<u8>, e: int)
    requires
        0 <= e <= s.len(),
        forall|k: int| 0 <= k < e ==> is_digit(#[trigger] s[k]),
        e == s.len() || !is_digit(s[e]),
    ensures
        digit_prefix(s) == s.take(e),
        forall|k: int| 0 <= k < digit_prefix(s).len() ==> is_digit(#[trigger] digit_prefix(s)[k]),
    decreases s.len(),
{
    if s.len() > 0 && is_digit(s.first()) {
        assert(e >= 1);
        assert(forall|k: int|
            0 <= k < e - 1 ==> #[trigger] s.drop_first()[k] == s[k + 1]);
        lemma_digit_prefix_window(s.drop_first(), e - 1);
        assert(digit_prefix(s) =~= s.take(e));
    } else {
        assert(e == 0);
        assert(digit_prefix(s) =~= s.take(0));
    }
}

/// Cast one numeric field to a class index, executable: exactly
/// `label_of` on the bytes.
pub fn label_cast(f: &Vec<u8>) -> (r: Option<usize>)
    ensures
        r == label_of(f@),
{
    let n = f.len();
    let mut i: usize = 0;
    if n > 0 && (f[0] == 43 || f[0] == 45) {
        i = 1;
    }
    let neg = n > 0 && f[0] == 45;
    let start = i;
    let ghost body = if has_sign(f@) {
        f@.drop_first()
    } else {
        f@
    };
    proof {
        assert(body =~= f@.skip(start as int));
    }
    let mut val: usize = 0;
    let mut overflow = false;
    while i < n && 48 <= f[i] && f[i] <= 57
        invariant
            start <= i <= n,
            n == f@.len(),
            body == f@.skip(start as int),
            forall|k: int| 0 <= k < i - start ==> is_digit(#[trigger] body[k]),
            !overflow ==> val == digits_val(body.take(i - start)),
            overflow ==> digits_val(body.take(i - start)) > usize::MAX,
        decreases n - i,
    {
        let d = f[i] - 48;
        proof {
            assert(body[i - start] == f@[i as int]);
            assert(body.take(i - start + 1).drop_last() =~= body.take(i - start));
            assert(body.take(i - start + 1).last() == body[i - start]);
        }
        if !overflow {
            if val > (usize::MAX - (d as usize)) / 10 {
                overflow = true;
                proof {
                    assert(val * 10 + d > usize::MAX) by (nonlinear_arith)
                        requires
                            val > (usize::MAX - (d as usize)) / 10,
                            0 <= d <= 9,
                    ;
                }
            } else {
                proof {
                    assert(val * 10 + d <= usize::MAX) by (nonlinear_arith)
                        requires
                            val <= (usize::MAX - (d as usize)) / 10,
                            0 <= d <= 9,
                    ;
                }
                val = val * 10 + (d as usize);
            }
        } else {
            proof {
                lemma_digits_val_nonneg(body.take(i - start));
                assert(digits_val(body.take(i - start + 1)) > usize::MAX);
            }
        }
        i = i + 1;
    }
    let int_end = i;
    let ghost ip = digit_prefix(body);
    proof {
        lemma_digit_prefix_window(body, int_end - start);
        assert(ip == body.take(int_end - start));
        if overflow {
            lemma_digits_val_prefix(ip, int_end - start);
        }
    }
    // fraction digits, if a decimal point follows
    if i < n && f[i] == 46 {
        i = i + 1;
        let frac_start = i;
        while i < n && 48 <= f[i] && f[i] <= 57
            invariant
                frac_start <= i <= n,
                n == f@.len(),
                forall|k: int|
                    frac_start <= k < i ==> is_digit(#[trigger] f@[k]),
            decreases n - i,
        {
            i = i + 1;
        }
        let ghost after_int = body.skip(ip.len() as int);
        proof {
            assert(after_int.first() == f@[int_end as int]);
            assert(after_int.drop_first() =~= f@.skip(frac_start as int));
            lemma_digit_prefix_window(after_int.drop_first(), i - frac_start);
            assert(after_int.drop_first().skip(digit_prefix(after_int.drop_first()).len() as int)
                =~= f@.skip(i as int));
        }
    } else {
        proof {
            let after_int = body.skip(ip.len() as int);
            assert(after_int =~= f@.skip(int_end as int));
            if after_int.len() > 0 {
                assert(after_int.first() == f@[int_end as int]);
            }
        }
    }
    // anything left (an exponent, or bytes outside the grammar) blocks the cast
    if i < n {
        proof {
            assert(f@.skip(i as int).len() > 0);
        }
        return None;
    }
    proof {
        assert(f@.skip(i as int).len() == 0);
    }
    if overflow {
        return None;
    }
    if neg && val > 0 {
        return None;
    }
    Some(val)
}

/// Copy one cell's bytes.
fn copy_bytes(v: &Vec<u8>) -> (r: Vec<u8>)
    ensures
        r@ == v@,
{
    let mut r: Vec<u8> = Vec::new();
    let mut i: usize = 0;
    while i < v.len()
        invariant
            i <= v.len(),
            r@ == v@.take(i as int),
        decreases v.len() - i,
    {
        r.push(v[i]);
        proof {
            assert(r@ =~= v@.take(i as int + 1));
        }
        i = i + 1;
    }
    proof {
        assert(v@.take(i as int) =~= v@);
    }
    r
}

/// Copy a row with the column at `label_col` removed.
fn row_without(row: &Vec<Vec<u8>>, label_col: usize) -> (r: Vec<Vec<u8>>)
    requires
        label_col < row@.len(),
    ensures
        r.deep_view() == drop_col(row.deep_view(), label_col as int),
{
    let mut r: Vec<Vec<u8>> = Vec::new();
    let mut j: usize = 0;
    while j < row.len()
        invariant
            j <= row@.len(),
            label_col < row@.len(),
            j <= label_col ==> r.deep_view() =~= row.deep_view().subrange(0, j as int),
            j > label_col ==> r.deep_view() =~= row.deep_view().subrange(0, label_col as int)
                + row.deep_view().subrange(label_col as int + 1, j as int),
        decreases row@.len() - j,
    {
        let ghost r0 = r.deep_view();
        if j != label_col {
            r.push(copy_bytes(&row[j]));
            proof {
                assert(r.deep_view() =~~= r0.push(row.deep_view()[j as int]));
            }
        }
        proof {
            if j + 1 <= label_col {
                assert(r.deep_view() =~~= row.deep_view().subrange(0, j as int + 1));
            } else if j == label_col {
                assert(r.deep_view() =~~= row.deep_view().subrange(0, label_col as int)
                    + row.deep_view().subrange(label_col as int + 1, j as int + 1));
            } else {
                assert(r.deep_view() =~~= row.deep_view().subrange(0, label_col as int)
                    + row.deep_view().subrange(label_col as int + 1, j as int + 1));
            }
        }
        j = j + 1;
    }
    proof {
        assert(r.deep_view() =~~= drop_col(row.deep_view(), label_col as int));
    }
    r
}

/// Build a dataset from a raw matrix: slice off the label column at
/// `label_col`, cast it to class indices, attach the feature names. The
/// result is exactly `from_matrix_spec` on the matrix.
pub fn from_matrix(m: &RawMatrix, label_col: usize, names: Vec<String>) -> (r: Result<
    Dataset,
    LoadError,
>)
    requires
        m.wf(),
    ensures
        match r {
            Ok(ds) => from_matrix_spec(m.mat(), label_col as int, names.deep_view()) == Ok::<
                (Seq<Seq<Seq<u8>>>, Seq<usize>),
                LoadError,
            >((ds.recs(), ds.tgts())) && ds.names() == names.deep_view() && ds.wf(),
            Err(e) => from_matrix_spec(m.mat(), label_col as int, names.deep_view()) == Err::<
                (Seq<Seq<Seq<u8>>>, Seq<usize>),
                LoadError,
            >(e),
        },
{
    let width = m.width();
    if label_col >= width {
        return Err(LoadError::LabelColumn);
    }
    if names.len() != width - 1 {
        return Err(LoadError::FeatureNameCount);
    }
    let ghost mat = m.mat();
    let n = m.n_rows();
    let mut feats: Vec<Vec<Vec<u8>>> = Vec::new();
    let mut tgts: Vec<usize> = Vec::new();
    let mut i: usize = 0;
    proof {
        assert(feats.deep_view() =~= Seq::<Seq<Seq<u8>>>::empty());
        assert(tgts@ =~= Seq::<usize>::empty());
        assert(mat.skip(0) =~= mat);
        let res = load_rows(mat, label_col as int, 0);
        if res is Ok {
            assert(Seq::<Seq<Seq<u8>>>::empty() + res->Ok_0.0 =~= res->Ok_0.0);
            assert(Seq::<usize>::empty() + res->Ok_0.1 =~= res->Ok_0.1);
        }
    }
    while i < n
        invariant
            i <= n,
            n == mat.len(),
            mat == m.mat(),
            m.wf(),
            label_col < mat[0].len(),
            names.deep_view().len() == mat[0].len() - 1,
            load_rows(mat, label_col as int, 0) == (match load_rows(
                mat.skip(i as int),
                label_col as int,
                i as int,
            ) {
                Ok(p) => Ok::<(Seq<Seq<Seq<u8>>>, Seq<usize>), LoadError>(
                    (feats.deep_view() + p.0, tgts@ + p.1),
                ),
                Err(e) => Err::<(Seq<Seq<Seq<u8>>>, Seq<usize>), LoadError>(e),
            }),
            feats.deep_view().len() == i,
            tgts@.len() == i,
            forall|r: int|
                0 <= r < i ==> #[trigger] feats.deep_view()[r] == drop_col(
                    mat[r],
                    label_col as int,
                ),
        decreases n - i,
    {
        proof {
            assert(mat.skip(i as int).len() > 0);
            assert(mat.skip(i as int).first() == mat[i as int]);
            assert(mat.skip(i as int).drop_first() =~= mat.skip(i as int + 1));
            assert(mat[i as int] == m.cells@[i as int].deep_view());
            assert(mat[i as int].len() == mat[0].len());
            assert(mat[i as int][label_col as int] == m.cells@[i as int]@[label_col as int]@);
        }
        let row = &m.cells[i];
        let lab = label_cast(&row[label_col]);
        match lab {
            None => {
                return Err(LoadError::LabelCast { row: i });
            },
            Some(t) => {
                let ghost feats0 = feats.deep_view();
                let ghost tgts0 = tgts@;
                feats.push(row_without(row, label_col));
                tgts.push(t);
                proof {
                    assert(feats.deep_view() =~~= feats0.push(
                        drop_col(mat[i as int], label_col as int),
                    ));
                    let rest = load_rows(mat.skip(i as int + 1), label_col as int, i as int + 1);
                    if rest is Ok {
                        assert(feats0 + (Seq::<Seq<Seq<u8>>>::empty().push(
                            drop_col(mat[i as int], label_col as int),
                        ) + rest->Ok_0.0) =~= feats0.push(
                            drop_col(mat[i as int], label_col as int),
                        ) + rest->Ok_0.0);
                        assert(tgts0 + (Seq::<usize>::empty().push(t) + rest->Ok_0.1) =~= tgts0.push(
                            t,
                        ) + rest->Ok_0.1);
                    }
                }
            },
        }
        i = i + 1;
    }
    proof {
        assert(mat.skip(i as int).len() == 0);
        assert(feats.deep_view() + Seq::<Seq<Seq<u8>>>::empty() =~= feats.deep_view());
        assert(tgts@ + Seq::<usize>::empty() =~= tgts@);
    }
    let ds = Dataset { records: feats, targets: tgts, feature_names: names };
    proof {
        assert forall|r: int, c: int|
            0 <= r < ds.recs().len() && 0 <= c < ds.recs()[r].len() implies is_numeric(
            #[trigger] ds.recs()[r][c],
        ) by {
            assert(ds.recs()[r] == drop_col(mat[r], label_col as int));
            if c < label_col {
                assert(ds.recs()[r][c] == mat[r][c]);
            } else {
                assert(ds.recs()[r][c] == mat[r][c + 1]);
            }
        }
        assert(ds.wf());
    }
    Ok(ds)
}

} // verus!
