//! The CSV decoder and the compressed-stream adapter.
//!
//! The decoder turns delimited text into a dense rectangular matrix of
//! numeric cells. Records are separated by line feeds (an optional
//! carriage return before a line feed is trimmed, and blank records are
//! skipped); fields are separated by a single-byte delimiter; every
//! field of a data row must be in standard decimal notation. The first
//! record of the input fixes the column count, whether or not it is a
//! header that is skipped.
//!
//! The adapter decompresses a gzip stream and hands the plain bytes to
//! the same decoder, so both entry points share one specification.

use vstd::prelude::*;

use crate::errors::ReadError;

verus! {

/// The line-feed byte that separates records.
pub const LINE_FEED: u8 = 10;

/// The carriage-return byte trimmed from a record's end.
pub const CARRIAGE_RETURN: u8 = 13;

/// A record with a trailing carriage return trimmed.
pub open spec fn trim_cr(r: Seq<u8>) -> Seq<u8> {
    if r.len() > 0 && r.last() == CARRIAGE_RETURN {
        r.drop_last()
    } else {
        r
    }
}

/// Close the record accumulated in `cur`: trim a trailing carriage
/// return and append it to `done` unless it is blank.
pub open spec fn finish_record(done: Seq<Seq<u8>>, cur: Seq<u8>) -> Seq<Seq<u8>> {
    let t = trim_cr(cur);
    if t.len() == 0 {
        done
    } else {
        done.push(t)
    }
}

/// Split the remaining bytes `b` into records, given the records `done`
/// already closed and the bytes `cur` of the open record.
pub open spec fn records_rec(b: Seq<u8>, done: Seq<Seq<u8>>, cur: Seq<u8>) -> Seq<Seq<u8>>
    decreases b.len(),
{
    if b.len() == 0 {
        finish_record(done, cur)
    } else if b.first() == LINE_FEED {
        records_rec(b.drop_first(), finish_record(done, cur), Seq::empty())
    } else {
        records_rec(b.drop_first(), done, cur.push(b.first()))
    }
}

/// The records of a byte stream: line-feed-separated, carriage returns
/// trimmed, blank records dropped.
pub open spec fn records_of(b: Seq<u8>) -> Seq<Seq<u8>> {
    records_rec(b, Seq::empty(), Seq::empty())
}

/// Split the remaining bytes `r` of a record into fields on the
/// delimiter `d`, given closed fields `done` and the open field `cur`.
pub open spec fn fields_rec(r: Seq<u8>, done: Seq<Seq<u8>>, cur: Seq<u8>, d: u8) -> Seq<Seq<u8>>
    decreases r.len(),
{
    if r.len() == 0 {
        done.push(cur)
    } else if r.first() == d {
        fields_rec(r.drop_first(), done.push(cur), Seq::empty(), d)
    } else {
        fields_rec(r.drop_first(), done, cur.push(r.first()), d)
    }
}

/// The fields of one record under delimiter `d`; a record always has at
/// least one field.
pub open spec fn fields_of(r: Seq<u8>, d: u8) -> Seq<Seq<u8>> {
    fields_rec(r, Seq::empty(), Seq::empty(), d)
}

/// The states of the numeric-notation automaton.
#[derive(Clone, Copy, Debug, PartialEq, Eq, Structural)]
pub enum NumState {
    /// Nothing read yet.
    Start,
    /// A leading sign was read.
    Sign,
    /// Inside the integer digits.
    Int,
    /// A decimal point was read before any digit.
    LeadDot,
    /// A decimal point was read after integer digits.
    Dot,
    /// Inside the fraction digits.
    Frac,
    /// An exponent marker was read.
    ExpMark,
    /// A sign after the exponent marker was read.
    ExpSign,
    /// Inside the exponent digits.
    ExpDig,
    /// The input left the grammar.
    Bad,
}

/// Whether `c` is an ASCII decimal digit.
pub open spec fn is_digit(c: u8) -> bool {
    48 <= c <= 57
}

/// One step of the numeric-notation automaton. The grammar is
/// `[+-]? ( digits [. digits*] | . digits ) ( [eE] [+-]? digits )?`,
/// locale-independent standard decimal notation.
pub open spec fn num_step(st: NumState, c: u8) -> NumState {
    match st {
        NumState::Start => if is_digit(c) {
            NumState::Int
        } else if c == 43 || c == 45 {
            NumState::Sign
        } else if c == 46 {
            NumState::LeadDot
        } else {
            NumState::Bad
        },
        NumState::Sign => if is_digit(c) {
            NumState::Int
        } else if c == 46 {
            NumState::LeadDot
        } else {
            NumState::Bad
        },
        NumState::Int => if is_digit(c) {
            NumState::Int
        } else if c == 46 {
            NumState::Dot
        } else if c == 101 || c == 69 {
            NumState::ExpMark
        } else {
            NumState::Bad
        },
        NumState::LeadDot => if is_digit(c) {
            NumState::Frac
        } else {
            NumState::Bad
        },
        NumState::Dot => if is_digit(c) {
            NumState::Frac
        } else if c == 101 || c == 69 {
            NumState::ExpMark
        } else {
            NumState::Bad
        },
        NumState::Frac => if is_digit(c) {
            NumState::Frac
        } else if c == 101 || c == 69 {
            NumState::ExpMark
        } else {
            NumState::Bad
        },
        NumState::ExpMark => if is_digit(c) {
            NumState::ExpDig
        } else if c == 43 || c == 45 {
            NumState::ExpSign
        } else {
            NumState::Bad
        },
        NumState::ExpSign => if is_digit(c) {
            NumState::ExpDig
        } else {
            NumState::Bad
        },
        NumState::ExpDig => if is_digit(c) {
            NumState::ExpDig
        } else {
            NumState::Bad
        },
        NumState::Bad => NumState::Bad,
    }
}

/// The automaton state after reading all of `f`.
pub open spec fn num_run(f: Seq<u8>) -> NumState
    decreases f.len(),
{
    if f.len() == 0 {
        NumState::Start
    } else {
        num_step(num_run(f.drop_last()), f.last())
    }
}

/// The accepting states of the automaton.
pub open spec fn accepting(st: NumState) -> bool {
    st is Int || st is Dot || st is Frac || st is ExpDig
}

/// Whether a field is in standard decimal notation.
pub open spec fn is_numeric(f: Seq<u8>) -> bool {
    accepting(num_run(f))
}

/// The index of the first field that is not numeric, if any.
pub open spec fn first_bad(fs: Seq<Seq<u8>>) -> Option<int>
    decreases fs.len(),
{
    if fs.len() == 0 {
        None
    } else if !is_numeric(fs.first()) {
        Some(0int)
    } else {
        match first_bad(fs.drop_first()) {
            Some(k) => Some(k + 1),
            None => None,
        }
    }
}

/// Check the data rows in order against the fixed `width`; `i` is the
/// 0-based index of the first of `rows` among the data rows. A row of
/// the wrong width fails before its fields are inspected.
pub open spec fn check_rows(rows: Seq<Seq<u8>>, d: u8, width: int, i: int) -> Result<
    Seq<Seq<Seq<u8>>>,
    ReadError,
>
    decreases rows.len(),
{
    if rows.len() == 0 {
        Ok(Seq::empty())
    } else {
        let fs = fields_of(rows.first(), d);
        if fs.len() != width {
            Err(ReadError::Format { row: i as usize })
        } else {
            match first_bad(fs) {
                Some(j) => Err(ReadError::Parse { row: i as usize, col: j as usize }),
                None => match check_rows(rows.drop_first(), d, width, i + 1) {
                    Ok(m) => Ok(Seq::empty().push(fs) + m),
                    Err(e) => Err(e),
                },
            }
        }
    }
}

/// What decoding a byte stream yields: the matrix of fields of every
/// data row, or the first error met. The first record fixes the width
/// and is skipped as a header when `has_headers` holds.
pub open spec fn decode_spec(b: Seq<u8>, has_headers: bool, d: u8) -> Result<
    Seq<Seq<Seq<u8>>>,
    ReadError,
> {
    let rows = records_of(b);
    let skip: int = if has_headers {
        1int
    } else {
        0int
    };
    if rows.len() <= skip {
        Err(ReadError::EmptyInput)
    } else {
        check_rows(rows.skip(skip), d, fields_of(rows[0], d).len() as int, 0)
    }
}

/// A dense rectangular matrix of numeric cells, each cell the bytes of
/// a field in standard decimal notation.
#[derive(Debug)]
pub struct RawMatrix {
    /// The rows of cells, in input order.
    pub cells: Vec<Vec<Vec<u8>>>,
}

impl RawMatrix {
    /// The matrix as a sequence of rows of cell byte strings.
    pub open spec fn mat(self) -> Seq<Seq<Seq<u8>>> {
        self.cells.deep_view()
    }

    /// Well-formed: at least one row, all rows of equal width, every
    /// cell numeric.
    pub open spec fn wf(self) -> bool {
        &&& self.mat().len() > 0
        &&& forall|i: int|
            0 <= i < self.mat().len() ==> #[trigger] self.mat()[i].len() == self.mat()[0].len()
        &&& forall|i: int, j: int|
            0 <= i < self.mat().len() && 0 <= j < self.mat()[i].len() ==> is_numeric(
                #[trigger] self.mat()[i][j],
            )
    }

    /// The number of rows.
    pub fn n_rows(&self) -> (r: usize)
        ensures
            r == self.mat().len(),
    {
        self.cells.len()
    }

    /// The number of columns, read off the first row.
    pub fn width(&self) -> (r: usize)
        requires
            self.wf(),
        ensures
            r == self.mat()[0].len(),
    {
        self.cells[0].len()
    }
}


/// Split a byte stream into its records.
fn split_records(b: &[u8]) -> (r: Vec<Vec<u8>>)
    ensures
        r.deep_view() == records_of(b@),
{
    let mut done: Vec<Vec<u8>> = Vec::new();
    let mut cur: Vec<u8> = Vec::new();
    let mut i: usize = 0;
    proof {
        assert(b@.skip(0) =~= b@);
        assert(done.deep_view() =~= Seq::<Seq<u8>>::empty());
        assert(cur@ =~= Seq::<u8>::empty());
    }
    while i < b.len()
        invariant
            i <= b.len(),
            records_rec(b@.skip(i as int), done.deep_view(), cur@) == records_of(b@),
        decreases b.len() - i,
    {
        let c = b[i];
        proof {
            assert(b@.skip(i as int).len() > 0);
            assert(b@.skip(i as int).first() == c);
            assert(b@.skip(i as int).drop_first() =~= b@.skip(i as int + 1));
        }
        if c == LINE_FEED {
            let ghost done0 = done.deep_view();
            let ghost cur0 = cur@;
            if cur.len() > 0 && cur[cur.len() - 1] == CARRIAGE_RETURN {
                cur.pop();
            }
            proof {
                assert(cur@ =~= trim_cr(cur0));
            }
            if cur.len() > 0 {
                done.push(cur);
                cur = Vec::new();
                proof {
                    assert(done.deep_view() =~~= finish_record(done0, cur0));
                }
            } else {
                proof {
                    assert(done.deep_view() =~~= finish_record(done0, cur0));
                }
            }
            proof {
                assert(cur@ =~= Seq::<u8>::empty());
            }
        } else {
            cur.push(c);
        }
        i = i + 1;
    }
    proof {
        assert(b@.skip(i as int).len() == 0);
    }
    let ghost done0 = done.deep_view();
    let ghost cur0 = cur@;
    if cur.len() > 0 && cur[cur.len() - 1] == CARRIAGE_RETURN {
        cur.pop();
    }
    proof {
        assert(cur@ =~= trim_cr(cur0));
    }
    if cur.len() > 0 {
        done.push(cur);
        proof {
            assert(done.deep_view() =~~= finish_record(done0, cur0));
        }
    } else {
        proof {
            assert(done.deep_view() =~~= finish_record(done0, cur0));
        }
    }
    done
}

/// Split one record into its fields on the delimiter `d`.
fn split_fields(r: &Vec<u8>, d: u8) -> (out: Vec<Vec<u8>>)
    ensures
        out.deep_view() == fields_of(r@, d),
{
    let mut done: Vec<Vec<u8>> = Vec::new();
    let mut cur: Vec<u8> = Vec::new();
    let mut i: usize = 0;
    proof {
        assert(r@.skip(0) =~= r@);
        assert(done.deep_view() =~= Seq::<Seq<u8>>::empty());
        assert(cur@ =~= Seq::<u8>::empty());
    }
    while i < r.len()
        invariant
            i <= r.len(),
            fields_rec(r@.skip(i as int), done.deep_view(), cur@, d) == fields_of(r@, d),
        decreases r.len() - i,
    {
        let c = r[i];
        proof {
            assert(r@.skip(i as int).len() > 0);
            assert(r@.skip(i as int).first() == c);
            assert(r@.skip(i as int).drop_first() =~= r@.skip(i as int + 1));
        }
        if c == d {
            let ghost done0 = done.deep_view();
            let ghost cur1 = cur@;
            done.push(cur);
            cur = Vec::new();
            proof {
                assert(done.deep_view() =~~= done0.push(cur1));
                assert(cur@ =~= Seq::<u8>::empty());
            }
        } else {
            cur.push(c);
        }
        i = i + 1;
    }
    proof {
        assert(r@.skip(i as int).len() == 0);
    }
    let ghost done0 = done.deep_view();
    let ghost cur0 = cur@;
    done.push(cur);
    proof {
        assert(done.deep_view() =~~= done0.push(cur0));
    }
    done
}

/// Whether one field is in standard decimal notation, by running the
/// automaton.
fn check_numeric(f: &Vec<u8>) -> (r: bool)
    ensures
        r == is_numeric(f@),
{
    let mut st = NumState::Start;
    let mut i: usize = 0;
    proof {
        assert(f@.take(0) =~= Seq::<u8>::empty());
    }
    while i < f.len()
        invariant
            i <= f.len(),
            st == num_run(f@.take(i as int)),
        decreases f.len() - i,
    {
        let c = f[i];
        proof {
            assert(f@.take(i as int + 1).drop_last() =~= f@.take(i as int));
            assert(f@.take(i as int + 1).last() == c);
        }
        st = num_step_exec(st, c);
        i = i + 1;
    }
    proof {
        assert(f@.take(i as int) =~= f@);
    }
    match st {
        NumState::Int => true,
        NumState::Dot => true,
        NumState::Frac => true,
        NumState::ExpDig => true,
        _ => false,
    }
}

/// One automaton step, executable.
fn num_step_exec(st: NumState, c: u8) -> (r: NumState)
    ensures
        r == num_step(st, c),
{
    let digit = 48 <= c && c <= 57;
    match st {
        NumState::Start => if digit {
            NumState::Int
        } else if c == 43 || c == 45 {
            NumState::Sign
        } else if c == 46 {
            NumState::LeadDot
        } else {
            NumState::Bad
        },
        NumState::Sign => if digit {
            NumState::Int
        } else if c == 46 {
            NumState::LeadDot
        } else {
            NumState::Bad
        },
        NumState::Int => if digit {
            NumState::Int
        } else if c == 46 {
            NumState::Dot
        } else if c == 101 || c == 69 {
            NumState::ExpMark
        } else {
            NumState::Bad
        },
        NumState::LeadDot => if digit {
            NumState::Frac
        } else {
            NumState::Bad
        },
        NumState::Dot => if digit {
            NumState::Frac
        } else if c == 101 || c == 69 {
            NumState::ExpMark
        } else {
            NumState::Bad
        },
        NumState::Frac => if digit {
            NumState::Frac
        } else if c == 101 || c == 69 {
            NumState::ExpMark
        } else {
            NumState::Bad
        },
        NumState::ExpMark => if digit {
            NumState::ExpDig
        } else if c == 43 || c == 45 {
            NumState::ExpSign
        } else {
            NumState::Bad
        },
        NumState::ExpSign => if digit {
            NumState::ExpDig
        } else {
            NumState::Bad
        },
        NumState::ExpDig => if digit {
            NumState::ExpDig
        } else {
            NumState::Bad
        },
        NumState::Bad => NumState::Bad,
    }
}

/// `first_bad` is `Some(j)` exactly when the fields before `j` are
/// numeric and the field at `j` is not.
proof fn lemma_first_bad_at(fs: Seq<Seq<u8>>, j: int)
    requires
        0 <= j < fs.len(),
        forall|k: int| 0 <= k < j ==> is_numeric(#[trigger] fs[k]),
        !is_numeric(fs[j]),
    ensures
        first_bad(fs) == Some(j),
    decreases fs.len(),
{
    if j == 0 {
    } else {
        assert(is_numeric(fs.first()));
        assert(forall|k: int| 0 <= k < j - 1 ==> #[trigger] fs.drop_first()[k] == fs[k + 1]);
        lemma_first_bad_at(fs.drop_first(), j - 1);
    }
}

/// When `first_bad` is `None`, every field is numeric.
proof fn lemma_first_bad_none_all(fs: Seq<Seq<u8>>)
    requires
        first_bad(fs) is None,
    ensures
        forall|k: int| 0 <= k < fs.len() ==> is_numeric(#[trigger] fs[k]),
    decreases fs.len(),
{
    if fs.len() > 0 {
        lemma_first_bad_none_all(fs.drop_first());
        assert forall|k: int| 0 <= k < fs.len() implies is_numeric(#[trigger] fs[k]) by {
            if k == 0 {
                assert(is_numeric(fs.first()));
            } else {
                assert(fs.drop_first()[k - 1] == fs[k]);
            }
        }
    }
}

/// When every field is numeric, `first_bad` is `None`.
proof fn lemma_first_bad_none(fs: Seq<Seq<u8>>)
    requires
        forall|k: int| 0 <= k < fs.len() ==> is_numeric(#[trigger] fs[k]),
    ensures
        first_bad(fs) is None,
    decreases fs.len(),
{
    if fs.len() > 0 {
        assert(forall|k: int| 0 <= k < fs.len() - 1 ==> #[trigger] fs.drop_first()[k] == fs[k + 1]);
        lemma_first_bad_none(fs.drop_first());
    }
}

/// The shape of a successful row check: one output row per input row,
/// each the fields of its record, all of the fixed width and numeric.
#[verifier::rlimit(30)]
pub proof fn lemma_check_rows_ok(rows: Seq<Seq<u8>>, d: u8, width: int, i: int, m: Seq<Seq<Seq<u8>>>)
    requires
        check_rows(rows, d, width, i) == Ok::<Seq<Seq<Seq<u8>>>, ReadError>(m),
    ensures
        m.len() == rows.len(),
        forall|r: int| 0 <= r < m.len() ==> #[trigger] m[r] == fields_of(rows[r], d),
        forall|r: int| 0 <= r < m.len() ==> #[trigger] m[r].len() == width,
        forall|r: int, c: int|
            0 <= r < m.len() && 0 <= c < m[r].len() ==> is_numeric(#[trigger] m[r][c]),
    decreases rows.len(),
{
    if rows.len() > 0 {
        let fs = fields_of(rows.first(), d);
        let rest = check_rows(rows.drop_first(), d, width, i + 1);
        let m1 = rest->Ok_0;
        lemma_check_rows_ok(rows.drop_first(), d, width, i + 1, m1);
        lemma_first_bad_none_all(fs);
        assert(m == Seq::empty().push(fs) + m1);
        assert(m[0] == fs);
        assert(forall|r: int| 0 <= r < m1.len() ==> #[trigger] m1[r] == m[r + 1]);
        assert(forall|r: int|
            0 <= r < rows.drop_first().len() ==> #[trigger] rows.drop_first()[r] == rows[r + 1]);
        assert forall|r: int| 0 <= r < m.len() implies #[trigger] m[r] == fields_of(rows[r], d) by {
            if r > 0 {
                assert(m[r] == m1[r - 1]);
            }
        }
    }
}

/// The index of the first non-numeric field, if any, executable.
fn find_bad_field(fs: &Vec<Vec<u8>>) -> (r: Option<usize>)
    ensures
        match r {
            Some(j) => first_bad(fs.deep_view()) == Some(j as int),
            None => first_bad(fs.deep_view()) is None,
        },
{
    let ghost fseq = fs.deep_view();
    let mut j: usize = 0;
    while j < fs.len()
        invariant
            j <= fs.len(),
            fseq == fs.deep_view(),
            forall|k: int| 0 <= k < j ==> is_numeric(#[trigger] fseq[k]),
        decreases fs.len() - j,
    {
        proof {
            assert(fseq[j as int] == fs@[j as int]@);
        }
        if !check_numeric(&fs[j]) {
            proof {
                lemma_first_bad_at(fseq, j as int);
            }
            return Some(j);
        }
        j = j + 1;
    }
    proof {
        lemma_first_bad_none(fseq);
    }
    None
}

/// Decode delimited text into a dense numeric matrix: the result is
/// exactly `decode_spec` on the bytes.
pub fn array_from_csv(csv_bytes: &[u8], has_headers: bool, separator: u8) -> (r: Result<
    RawMatrix,
    ReadError,
>)
    ensures
        match r {
            Ok(m) => decode_spec(csv_bytes@, has_headers, separator) == Ok::<
                Seq<Seq<Seq<u8>>>,
                ReadError,
            >(m.mat()) && m.wf(),
            Err(e) => decode_spec(csv_bytes@, has_headers, separator) == Err::<
                Seq<Seq<Seq<u8>>>,
                ReadError,
            >(e),
        },
{
    let rows = split_records(csv_bytes);
    let skip: usize = if has_headers {
        1
    } else {
        0
    };
    if rows.len() <= skip {
        return Err(ReadError::EmptyInput);
    }
    let ghost rseq = rows.deep_view();
    proof {
        assert(rseq[0] == rows@[0]@);
    }
    let first_fields = split_fields(&rows[0], separator);
    let width = first_fields.len();
    let ghost dwidth = fields_of(rseq[0], separator).len() as int;
    proof {
        assert(first_fields.deep_view().len() == first_fields@.len());
        assert(width == dwidth);
    }
    let mut out: Vec<Vec<Vec<u8>>> = Vec::new();
    let mut i: usize = skip;
    proof {
        assert(out.deep_view() =~= Seq::<Seq<Seq<u8>>>::empty());
        let res = check_rows(rseq.skip(skip as int), separator, dwidth, 0);
        if res is Ok {
            assert(Seq::<Seq<Seq<u8>>>::empty() + res->Ok_0 =~= res->Ok_0);
        }
    }
    while i < rows.len()
        invariant
            skip <= i <= rows.len(),
            skip == if has_headers { 1int } else { 0int },
            rows.deep_view() == rseq,
            rseq.len() > skip,
            dwidth == fields_of(rseq[0], separator).len(),
            width == dwidth,
            decode_spec(csv_bytes@, has_headers, separator) == check_rows(
                rseq.skip(skip as int),
                separator,
                dwidth,
                0,
            ),
            check_rows(rseq.skip(skip as int), separator, dwidth, 0) == (match check_rows(
                rseq.skip(i as int),
                separator,
                dwidth,
                i - skip,
            ) {
                Ok(m) => Ok::<Seq<Seq<Seq<u8>>>, ReadError>(out.deep_view() + m),
                Err(e) => Err::<Seq<Seq<Seq<u8>>>, ReadError>(e),
            }),
            out.deep_view().len() == i - skip,
            forall|r: int|
                0 <= r < out.deep_view().len() ==> #[trigger] out.deep_view()[r].len() == dwidth,
            forall|r: int, c: int|
                0 <= r < out.deep_view().len() && 0 <= c < out.deep_view()[r].len() ==> is_numeric(
                    #[trigger] out.deep_view()[r][c],
                ),
        decreases rows.len() - i,
    {
        proof {
            assert(rseq.skip(i as int).len() > 0);
            assert(rseq.skip(i as int).first() == rseq[i as int]);
            assert(rseq.skip(i as int).drop_first() =~= rseq.skip(i as int + 1));
            assert(rseq[i as int] == rows@[i as int]@);
        }
        let fs = split_fields(&rows[i], separator);
        let ghost fseq = fields_of(rseq[i as int], separator);
        proof {
            assert(fs.deep_view() == fseq);
            assert(fs@.len() == fseq.len());
        }
        if fs.len() != width {
            return Err(ReadError::Format { row: i - skip });
        }
        match find_bad_field(&fs) {
            Some(j) => {
                return Err(ReadError::Parse { row: i - skip, col: j });
            },
            None => {},
        }
        let ghost out0 = out.deep_view();
        out.push(fs);
        proof {
            lemma_first_bad_none_all(fseq);
            assert(out.deep_view() =~~= out0.push(fseq));
            let rest = check_rows(rseq.skip(i as int + 1), separator, dwidth, i - skip + 1);
            if rest is Ok {
                assert(out0 + (Seq::<Seq<Seq<u8>>>::empty().push(fseq) + rest->Ok_0) =~= out0.push(
                    fseq,
                ) + rest->Ok_0);
            }
        }
        i = i + 1;
    }
    proof {
        assert(rseq.skip(i as int).len() == 0);
        assert(check_rows(rseq.skip(i as int), separator, dwidth, i - skip) == Ok::<
            Seq<Seq<Seq<u8>>>,
            ReadError,
        >(Seq::empty()));
        assert(out.deep_view() + Seq::<Seq<Seq<u8>>>::empty() =~= out.deep_view());
    }
    let m = RawMatrix { cells: out };
    proof {
        assert(m.mat().len() == rows.len() - skip);
        assert(m.wf());
    }
    Ok(m)
}

/// What an external gzip decompressor yields on a byte stream: the
/// plain bytes, or nothing when the framing is malformed. Decompression
/// depends on the input bytes alone.
pub uninterp spec fn gunzip_of(b: Seq<u8>) -> Option<Seq<u8>>;

/// Relies on `flate2::read::GzDecoder` driven by
/// `std::io::Read::read_to_end`: decompressing a gzip byte buffer is a
/// pure function of the bytes, and a malformed frame yields an error.
#[verifier::external_body]
fn gunzip(gz: &[u8]) -> (r: Option<Vec<u8>>)
    ensures
        match r {
            Some(v) => gunzip_of(gz@) == Some(v@),
            None => gunzip_of(gz@) == None::<Seq<u8>>,
        },
{
    let mut dec = flate2::read::GzDecoder::new(gz);
    let mut out = Vec::new();
    match std::io::Read::read_to_end(&mut dec, &mut out) {
        Ok(_) => Some(out),
        Err(_) => None,
    }
}

/// What decoding a gzip-compressed CSV yields: decode the decompressed
/// bytes, or a decompression error on malformed framing.
pub open spec fn decode_gz_spec(gz: Seq<u8>, has_headers: bool, d: u8) -> Result<
    Seq<Seq<Seq<u8>>>,
    ReadError,
> {
    match gunzip_of(gz) {
        Some(c) => decode_spec(c, has_headers, d),
        None => Err(ReadError::Decompression),
    }
}

/// Decode a gzip-compressed CSV through the compressed-stream adapter:
/// the result is exactly `decode_gz_spec` on the bytes.
pub fn array_from_csv_gz(gz: &[u8], has_headers: bool, separator: u8) -> (r: Result<
    RawMatrix,
    ReadError,
>)
    ensures
        match r {
            Ok(m) => decode_gz_spec(gz@, has_headers, separator) == Ok::<
                Seq<Seq<Seq<u8>>>,
                ReadError,
            >(m.mat()) && m.wf(),
            Err(e) => decode_gz_spec(gz@, has_headers, separator) == Err::<
                Seq<Seq<Seq<u8>>>,
                ReadError,
            >(e),
        },
{
    match gunzip(gz) {
        Some(plain) => array_from_csv(plain.as_slice(), has_headers, separator),
        None => Err(ReadError::Decompression),
    }
}

/// Law: decoding a CSV through the compressed-stream adapter yields
/// exactly what decoding its decompressed bytes yields, error for error
/// and cell for cell.
pub proof fn lemma_gz_decode_round_trip(gz: Seq<u8>, plain: Seq<u8>, has_headers: bool, d: u8)
    requires
        gunzip_of(gz) == Some(plain),
    ensures
        decode_gz_spec(gz, has_headers, d) == decode_spec(plain, has_headers, d),
{
}

/// Law: for rectangular input decoded with a header row, the row count
/// of the matrix is the record count minus one, and every row's column
/// count is the header's field count.
pub proof fn lemma_decode_header_shape(b: Seq<u8>, d: u8, m: Seq<Seq<Seq<u8>>>)
    requires
        decode_spec(b, true, d) == Ok::<Seq<Seq<Seq<u8>>>, ReadError>(m),
    ensures
        m.len() == records_of(b).len() - 1,
        forall|r: int|
            0 <= r < m.len() ==> #[trigger] m[r].len() == fields_of(records_of(b)[0], d).len(),
{
    let rows = records_of(b);
    lemma_check_rows_ok(rows.skip(1), d, fields_of(rows[0], d).len() as int, 0, m);
}

} // verus!
