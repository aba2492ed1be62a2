use calcagebra::error::Error;
use calcagebra::scalar::Real;
use calcagebra::value::{Complex, Value};

fn number(x: f64) -> Real {
    Real::from_bits(x.to_bits())
}

fn scalar(x: f64) -> Value {
    Value::Number(number(x), number(0.0))
}

fn matrix(rows: &[&[f64]]) -> Value {
    Value::Matrix(
        rows.iter()
            .map(|row| row.iter().map(|x| Complex { re: number(*x), im: number(0.0) }).collect())
            .collect(),
    )
}

#[test]
fn negation_flips_the_sign_and_nothing_else() {
    for x in [0.0, 1.0, -1.0, 2.5, -1e300, f64::INFINITY, f64::MIN_POSITIVE, f64::MAX] {
        assert_eq!(number(x).negated(), number(-x));
        assert_eq!(number(x).negated().negated(), number(x));
    }
    assert_eq!(Real::from_bits(0).negated().to_bits(), 0x8000_0000_0000_0000);
    assert_eq!(Real::from_bits(0x8000_0000_0000_0000).negated().to_bits(), 0);
    assert_eq!(number(1.0).negated().to_bits(), 0xBFF0_0000_0000_0000);
    assert_eq!(number(f64::NAN).negated().to_bits(), f64::NAN.to_bits() ^ (1 << 63));
}

#[test]
fn only_the_two_zeros_are_zero() {
    assert!(number(0.0).is_zero());
    assert!(number(-0.0).is_zero());
    assert!(Real::new().is_zero());
    assert_eq!(Real::new().to_bits(), 0);
    for x in [1.0, -1.0, f64::MIN_POSITIVE, 5e-324, f64::NAN, f64::INFINITY] {
        assert_eq!(number(x).is_zero(), x == 0.0);
    }
}

#[test]
fn a_number_is_true_unless_it_is_zero() {
    assert_eq!(scalar(0.0).truth(), Some(false));
    assert_eq!(Value::Number(number(-0.0), number(0.0)).truth(), Some(false));
    assert_eq!(scalar(2.0).truth(), Some(true));
    assert_eq!(Value::Number(number(0.0), number(1.0)).truth(), Some(true));
    assert_eq!(matrix(&[&[1.0]]).truth(), None);
}

#[test]
fn the_transpose_of_a_matrix() {
    assert_eq!(
        matrix(&[&[1.0, 2.0], &[3.0, 4.0]]).transpose(),
        Ok(matrix(&[&[1.0, 3.0], &[2.0, 4.0]]))
    );
    assert_eq!(
        matrix(&[&[1.0, 2.0, 3.0], &[4.0, 5.0, 6.0]]).transpose(),
        Ok(matrix(&[&[1.0, 4.0], &[2.0, 5.0], &[3.0, 6.0]]))
    );
    assert_eq!(matrix(&[&[1.0], &[2.0]]).transpose(), Ok(matrix(&[&[1.0, 2.0]])));
    assert_eq!(matrix(&[]).transpose(), Ok(matrix(&[])));
    assert_eq!(matrix(&[&[], &[]]).transpose(), Ok(matrix(&[])));
}

#[test]
fn what_has_no_transpose() {
    assert_eq!(scalar(1.0).transpose(), Err(Error::TypeError));
    assert_eq!(matrix(&[&[1.0, 2.0], &[3.0]]).transpose(), Err(Error::ShapeError));
}

#[test]
fn rows_are_numbers_or_flat_sequences() {
    assert_eq!(
        Value::from_rows(&vec![scalar(1.0), scalar(2.0)]),
        Ok(matrix(&[&[1.0], &[2.0]]))
    );
    assert_eq!(
        Value::from_rows(&vec![matrix(&[&[1.0], &[2.0]]), matrix(&[&[3.0], &[4.0]])]),
        Ok(matrix(&[&[1.0, 2.0], &[3.0, 4.0]]))
    );
    assert_eq!(Value::from_rows(&vec![]), Ok(matrix(&[])));
    assert_eq!(Value::from_rows(&vec![matrix(&[]), matrix(&[])]), Ok(matrix(&[&[], &[]])));
    assert_eq!(
        Value::from_rows(&vec![Value::Number(number(1.0), number(2.0))]),
        Ok(Value::Matrix(vec![vec![Complex { re: number(1.0), im: number(2.0) }]]))
    );
}

#[test]
fn rows_that_do_not_fit_are_a_shape_error() {
    assert_eq!(
        Value::from_rows(&vec![matrix(&[&[1.0], &[2.0]]), matrix(&[&[3.0], &[4.0], &[5.0]])]),
        Err(Error::ShapeError)
    );
    assert_eq!(
        Value::from_rows(&vec![scalar(1.0), matrix(&[&[3.0], &[4.0]])]),
        Err(Error::ShapeError)
    );
    assert_eq!(Value::from_rows(&vec![matrix(&[&[1.0, 2.0]])]), Err(Error::ShapeError));
    assert_eq!(Value::from_rows(&vec![matrix(&[&[]])]), Err(Error::ShapeError));
}

#[test]
fn copies_of_values_are_equal() {
    let m = matrix(&[&[1.0, 2.0], &[3.0, 4.0]]);
    assert_eq!(m.clone(), m);
    assert_eq!(scalar(3.0).clone(), scalar(3.0));
    let e = Error::NameError("x".to_string());
    assert_eq!(e.clone(), e);
}

#[test]
fn transposing_twice_gives_the_matrix_back() {
    for m in [
        matrix(&[&[1.0, 2.0], &[3.0, 4.0]]),
        matrix(&[&[1.0, 2.0, 3.0]]),
        matrix(&[&[1.0], &[2.0], &[3.0]]),
        matrix(&[&[1.0, 2.0, 3.0], &[4.0, 5.0, 6.0]]),
    ] {
        assert_eq!(m.transpose().unwrap().transpose(), Ok(m));
    }
    // A matrix without entries loses its rows.
    assert_eq!(matrix(&[&[], &[]]).transpose().unwrap().transpose(), Ok(matrix(&[])));
}
