use vstd::prelude::*;
use crate::error::{Error, ErrorView};
use crate::scalar::Real;

verus! {

/// A complex number: the entry of a matrix.
#[derive(Clone, Copy, Debug, PartialEq, Eq, Structural)]
pub struct Complex {
    pub re: Real,
    pub im: Real,
}

/// A value at run time: a number with its real and imaginary part, or a
/// matrix as the list of its rows.
#[derive(Debug, PartialEq, Eq)]
pub enum Value {
    Number(Real, Real),
    Matrix(Vec<Vec<Complex>>),
}

/// The mathematical value of a [`Value`].
pub ghost enum ValueView {
    Number(Real, Real),
    Matrix(Seq<Seq<Complex>>),
}

/// The rows of a matrix as sequences.
pub open spec fn row_views(rows: Seq<Vec<Complex>>) -> Seq<Seq<Complex>> {
    Seq::new(rows.len(), |i: int| rows[i]@)
}

/// The views of a sequence of values, in order.
pub open spec fn value_views(values: Seq<Value>) -> Seq<ValueView> {
    Seq::new(values.len(), |i: int| values[i]@)
}

impl View for Value {
    type V = ValueView;

    open spec fn view(&self) -> ValueView {
        match self {
            Value::Number(re, im) => ValueView::Number(*re, *im),
            Value::Matrix(rows) => ValueView::Matrix(row_views(rows@)),
        }
    }
}

/// All rows have the same length.
pub open spec fn rectangular(rows: Seq<Seq<Complex>>) -> bool {
    forall|i: int, j: int|
        0 <= i < rows.len() && 0 <= j < rows.len() ==> (#[trigger] rows[i]).len()
            == (#[trigger] rows[j]).len()
}

/// Every row holds exactly one number: the matrix is a plain sequence of
/// numbers.
pub open spec fn flat(rows: Seq<Seq<Complex>>) -> bool {
    forall|i: int| 0 <= i < rows.len() ==> (#[trigger] rows[i]).len() == 1
}

/// The numbers of a flat matrix, in order.
pub open spec fn flattened(rows: Seq<Seq<Complex>>) -> Seq<Complex> {
    Seq::new(rows.len(), |i: int| rows[i][0])
}

/// The row that a value stands for inside a matrix literal: a number is a
/// row of one entry, a flat matrix is the row of its numbers, and any other
/// matrix is no row.
pub open spec fn as_row(value: ValueView) -> Option<Seq<Complex>> {
    match value {
        ValueView::Number(re, im) => Some(seq![Complex { re, im }]),
        ValueView::Matrix(rows) => if flat(rows) {
            Some(flattened(rows))
        } else {
            None
        },
    }
}

/// The rows that the values stand for, in order.
pub open spec fn rows_of(values: Seq<ValueView>) -> Seq<Seq<Complex>> {
    Seq::new(values.len(), |i: int| as_row(values[i]).unwrap())
}

/// The matrix made of the rows that the values stand for. It exists when
/// every value stands for a row and all the rows have one length; anything
/// else is a shape error.
pub open spec fn assemble(values: Seq<ValueView>) -> Result<ValueView, ErrorView> {
    if (forall|i: int| 0 <= i < values.len() ==> as_row(#[trigger] values[i]) is Some)
        && rectangular(rows_of(values)) {
        Ok(ValueView::Matrix(rows_of(values)))
    } else {
        Err(ErrorView::ShapeError)
    }
}

/// The rows of the transpose of a rectangular matrix: entry `i` of row `j`
/// is entry `j` of row `i`.
pub open spec fn transposed(rows: Seq<Seq<Complex>>) -> Seq<Seq<Complex>> {
    if rows.len() == 0 {
        Seq::empty()
    } else {
        Seq::new(rows[0].len(), |j: int| Seq::new(rows.len(), |i: int| rows[i][j]))
    }
}

/// The transpose of a value: of a rectangular matrix, its transposed rows;
/// a ragged matrix is a shape error, and a number has no transpose.
pub open spec fn transpose(value: ValueView) -> Result<ValueView, ErrorView> {
    match value {
        ValueView::Number(_, _) => Err(ErrorView::TypeError),
        ValueView::Matrix(rows) => if rectangular(rows) {
            Ok(ValueView::Matrix(transposed(rows)))
        } else {
            Err(ErrorView::ShapeError)
        },
    }
}

/// The truth that a value stands for as a condition: a number is false
/// when it is zero and true otherwise; a matrix is no condition.
pub open spec fn truth(value: ValueView) -> Option<bool> {
    match value {
        ValueView::Number(re, im) => Some(!(re.zero() && im.zero())),
        ValueView::Matrix(_) => None,
    }
}

/// The mathematical reading of a result that holds a value.
pub open spec fn value_result_view(r: Result<Value, Error>) -> Result<ValueView, ErrorView> {
    match r {
        Ok(value) => Ok(value@),
        Err(e) => Err(e@),
    }
}

/// A copy of a row.
fn clone_row(row: &Vec<Complex>) -> (r: Vec<Complex>)
    ensures
        r@ == row@,
{
    let mut out: Vec<Complex> = Vec::new();
    let mut i: usize = 0;
    while i < row.len()
        invariant
            i <= row.len(),
            out@ == row@.subrange(0, i as int),
        decreases row.len() - i,
    {
        out.push(row[i]);
        assert(out@ =~= row@.subrange(0, i + 1));
        i = i + 1;
    }
    assert(row@.subrange(0, row.len() as int) =~= row@);
    out
}

impl Clone for Value {
    fn clone(&self) -> (r: Self)
        ensures
            r@ == self@,
    {
        match self {
            Value::Number(re, im) => Value::Number(*re, *im),
            Value::Matrix(rows) => {
                let mut out: Vec<Vec<Complex>> = Vec::new();
                let mut i: usize = 0;
                while i < rows.len()
                    invariant
                        i <= rows.len(),
                        out.len() == i,
                        forall|j: int| 0 <= j < i ==> out@[j]@ == rows@[j]@,
                    decreases rows.len() - i,
                {
                    out.push(clone_row(&rows[i]));
                    i = i + 1;
                }
                assert(row_views(out@) =~= row_views(rows@));
                Value::Matrix(out)
            },
        }
    }
}

impl Value {
    /// The truth of the value as a condition, if it is a number.
    pub fn truth(&self) -> (t: Option<bool>)
        ensures
            t == truth(self@),
    {
        match self {
            Value::Number(re, im) => Some(!(re.is_zero() && im.is_zero())),
            Value::Matrix(_) => None,
        }
    }

    /// The transpose of a matrix.
    #[verifier::loop_isolation(false)]
    pub fn transpose(&self) -> (r: Result<Value, Error>)
        ensures
            value_result_view(r) == transpose(self@),
    {
        match self {
            Value::Number(_, _) => Err(Error::TypeError),
            Value::Matrix(rows) => {
                if rows.len() == 0 {
                    let none: Vec<Vec<Complex>> = Vec::new();
                    assert(row_views(none@) =~= transposed(row_views(rows@)));
                    return Ok(Value::Matrix(none));
                }
                let width = rows[0].len();
                let mut k: usize = 1;
                while k < rows.len()
                    invariant
                        1 <= k <= rows.len(),
                        width == rows[0].len(),
                        forall|i: int| 0 <= i < k ==> (#[trigger] rows[i]).len() == width,
                    decreases rows.len() - k,
                {
                    if rows[k].len() != width {
                        proof {
                            let m = row_views(rows@);
                            assert(m[k as int].len() != m[0].len());
                        }
                        return Err(Error::ShapeError);
                    }
                    k = k + 1;
                }
                proof {
                    let m = row_views(rows@);
                    assert forall|i: int, j: int| 0 <= i < m.len() && 0 <= j < m.len() implies (
                    #[trigger] m[i]).len() == (#[trigger] m[j]).len() by {
                        assert(rows[i].len() == width);
                        assert(rows[j].len() == width);
                    }
                }
                let mut out: Vec<Vec<Complex>> = Vec::new();
                let mut j: usize = 0;
                while j < width
                    invariant
                        j <= width,
                        out.len() == j,
                        rows.len() > 0,
                        forall|i: int| 0 <= i < rows.len() ==> (#[trigger] rows[i]).len() == width,
                        forall|c: int|
                            0 <= c < j ==> (#[trigger] out[c])@ == Seq::new(
                                rows.len() as nat,
                                |i: int| rows[i][c],
                            ),
                    decreases width - j,
                {
                    let mut column: Vec<Complex> = Vec::new();
                    let mut i: usize = 0;
                    while i < rows.len()
                        invariant
                            i <= rows.len(),
                            j < width,
                            column.len() == i,
                            forall|r: int|
                                0 <= r < rows.len() ==> (#[trigger] rows[r]).len() == width,
                            forall|r: int| 0 <= r < i ==> column[r] == rows[r][j as int],
                        decreases rows.len() - i,
                    {
                        column.push(rows[i][j]);
                        i = i + 1;
                    }
                    assert(column@ =~= Seq::new(rows.len() as nat, |i: int| rows[i][j as int]));
                    out.push(column);
                    j = j + 1;
                }
                proof {
                    let m = row_views(rows@);
                    let t = transposed(m);
                    assert(row_views(out@).len() == t.len());
                    assert forall|c: int| 0 <= c < t.len() implies row_views(out@)[c] == t[c] by {
                        assert(out[c]@ =~= t[c]);
                    }
                    assert(row_views(out@) =~= t);
                }
                Ok(Value::Matrix(out))
            },
        }
    }

    /// The matrix whose rows are the given values, each a number or a flat
    /// sequence of numbers, all of one length.
    #[verifier::loop_isolation(false)]
    pub fn from_rows(values: &Vec<Value>) -> (r: Result<Value, Error>)
        ensures
            value_result_view(r) == assemble(value_views(values@)),
    {
        let ghost all = value_views(values@);
        let mut out: Vec<Vec<Complex>> = Vec::new();
        let mut k: usize = 0;
        while k < values.len()
            invariant
                k <= values.len(),
                out.len() == k,
                all == value_views(values@),
                forall|i: int| 0 <= i < k ==> as_row(#[trigger] all[i]) == Some(out[i]@),
                forall|i: int| 0 <= i < k ==> (#[trigger] out[i]).len() == out[0].len(),
            decreases values.len() - k,
        {
            let row = match &values[k] {
                Value::Number(re, im) => {
                    let mut one: Vec<Complex> = Vec::new();
                    one.push(Complex { re: *re, im: *im });
                    assert(one@ =~= seq![Complex { re: *re, im: *im }]);
                    one
                },
                Value::Matrix(rows) => {
                    let mut numbers: Vec<Complex> = Vec::new();
                    let mut i: usize = 0;
                    while i < rows.len()
                        invariant
                            i <= rows.len(),
                            numbers.len() == i,
                            forall|r: int| 0 <= r < i ==> (#[trigger] rows[r]).len() == 1,
                            forall|r: int| 0 <= r < i ==> numbers[r] == rows[r][0],
                        decreases rows.len() - i,
                    {
                        if rows[i].len() != 1 {
                            proof {
                                let m = row_views(rows@);
                                assert(m[i as int].len() != 1);
                                assert(!flat(m));
                                assert(as_row(all[k as int]) is None);
                            }
                            return Err(Error::ShapeError);
                        }
                        numbers.push(rows[i][0]);
                        i = i + 1;
                    }
                    proof {
                        let m = row_views(rows@);
                        assert forall|r: int| 0 <= r < m.len() implies (#[trigger] m[r]).len()
                            == 1 by {
                            assert(rows[r].len() == 1);
                        }
                        assert(numbers@ =~= flattened(m));
                    }
                    numbers
                },
            };
            assert(as_row(all[k as int]) == Some(row@));
            if k > 0 && row.len() != out[0].len() {
                proof {
                    let m = rows_of(all);
                    assert(m[k as int].len() != m[0].len());
                }
                return Err(Error::ShapeError);
            }
            out.push(row);
            k = k + 1;
        }
        proof {
            let m = rows_of(all);
            assert(row_views(out@) =~= m);
            assert forall|i: int, j: int| 0 <= i < m.len() && 0 <= j < m.len() implies (
            #[trigger] m[i]).len() == (#[trigger] m[j]).len() by {
                assert(out[i].len() == out[0].len());
                assert(out[j].len() == out[0].len());
            }
        }
        Ok(Value::Matrix(out))
    }
}

/// The transpose of a rectangular matrix is rectangular: each of its rows
/// has as many entries as the matrix has rows.
pub proof fn lemma_transposed_shape(rows: Seq<Seq<Complex>>)
    requires
        rectangular(rows),
        rows.len() > 0,
    ensures
        rectangular(transposed(rows)),
        transposed(rows).len() == rows[0].len(),
        forall|j: int|
            0 <= j < transposed(rows).len() ==> (#[trigger] transposed(rows)[j]).len()
                == rows.len(),
{
}

/// Transposing twice gives the matrix back, if it has an entry at all.
pub proof fn lemma_transposed_twice(rows: Seq<Seq<Complex>>)
    requires
        rectangular(rows),
        rows.len() > 0,
        rows[0].len() > 0,
    ensures
        transposed(transposed(rows)) == rows,
{
    let once = transposed(rows);
    let twice = transposed(once);
    lemma_transposed_shape(rows);
    assert(twice.len() == rows.len());
    assert forall|i: int| 0 <= i < rows.len() implies #[trigger] twice[i] == rows[i] by {
        assert(rows[i].len() == rows[0].len());
        assert(twice[i] =~= rows[i]);
    }
    assert(twice =~= rows);
}

} // verus!
