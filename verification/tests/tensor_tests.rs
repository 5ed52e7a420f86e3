use tapegrad::error::Error;
use tapegrad::fixed::Fixed;
use tapegrad::shape::{copy_shape, element_count, is_scalar, same_shape};
use tapegrad::tensor::Tensor;

const ONE: i64 = 1 << 32;

fn numbers(raws: &[i64]) -> Vec<Fixed> {
    raws.iter().map(|r| Fixed::from_raw(*r)).collect()
}

fn raws_of(values: &Vec<Fixed>) -> Vec<i64> {
    values.iter().map(|v| v.raw()).collect()
}

fn tensor(shape: &[usize], raws: &[i64]) -> Tensor {
    match Tensor::from_values(shape.to_vec(), numbers(raws)) {
        Ok(t) => t,
        Err(_) => panic!("shape and values do not fit"),
    }
}

#[test]
fn element_count_is_the_product_of_the_dimensions() {
    assert_eq!(element_count(&vec![]), Some(1));
    assert_eq!(element_count(&vec![7]), Some(7));
    assert_eq!(element_count(&vec![3, 1]), Some(3));
    assert_eq!(element_count(&vec![2, 3, 4]), Some(24));
    assert_eq!(element_count(&vec![5, 0, 9]), Some(0));
}

#[test]
fn element_count_tells_when_the_product_does_not_fit() {
    assert_eq!(element_count(&vec![usize::MAX, 2]), None);
    assert_eq!(element_count(&vec![usize::MAX, usize::MAX, 0]), Some(0));
    assert_eq!(element_count(&vec![usize::MAX, 1]), Some(usize::MAX));
}

#[test]
fn scalar_shapes_are_empty_or_a_single_one() {
    assert!(is_scalar(&vec![]));
    assert!(is_scalar(&vec![1]));
    assert!(!is_scalar(&vec![1, 1]));
    assert!(!is_scalar(&vec![5, 1]));
    assert!(!is_scalar(&vec![2]));
}

#[test]
fn shapes_compare_dimension_by_dimension() {
    assert!(same_shape(&vec![2, 3], &vec![2, 3]));
    assert!(!same_shape(&vec![2, 3], &vec![3, 2]));
    assert!(!same_shape(&vec![2, 3], &vec![2, 3, 1]));
    assert_eq!(copy_shape(&vec![4, 5, 6]), vec![4, 5, 6]);
}

#[test]
fn from_values_rejects_a_buffer_of_the_wrong_size() {
    let r = Tensor::from_values(vec![3, 1], numbers(&[ONE, 2 * ONE]));
    assert!(matches!(r, Err(Error::ShapeMismatch)));
}

#[test]
fn from_values_rejects_a_shape_that_does_not_fit_the_machine() {
    let r = Tensor::from_values(vec![usize::MAX, 2], numbers(&[ONE]));
    assert!(matches!(r, Err(Error::ShapeMismatch)));
}

#[test]
fn from_values_keeps_shape_and_values() {
    let t = tensor(&[3, 1], &[ONE, 2 * ONE, 3 * ONE]);
    assert_eq!(t.shape(), &vec![3, 1]);
    assert_eq!(raws_of(t.data()), vec![ONE, 2 * ONE, 3 * ONE]);
    assert_eq!(t.len(), 3);
    assert!(!t.requires_grad());
    assert!(t.grad().is_none());
}

#[test]
fn from_values_takes_the_empty_shape_with_one_value() {
    let t = tensor(&[], &[7 * ONE]);
    assert_eq!(t.len(), 1);
    assert!(t.shape().is_empty());
}

#[test]
fn zeros_fills_the_shape_with_zeros() {
    let t = Tensor::zeros(vec![2, 3]);
    assert_eq!(t.shape(), &vec![2, 3]);
    assert_eq!(raws_of(t.data()), vec![0; 6]);
    assert!(!t.requires_grad());
    assert!(t.grad().is_none());
}

#[test]
fn scalar_holds_one_value_in_shape_one() {
    let t = Tensor::scalar(Fixed::from_int(9));
    assert_eq!(t.shape(), &vec![1]);
    assert_eq!(raws_of(t.data()), vec![9 * ONE]);
}

#[test]
fn with_grad_switches_tracking() {
    let t = Tensor::scalar(Fixed::one()).with_grad(true);
    assert!(t.requires_grad());
    assert!(!t.with_grad(false).requires_grad());
}

#[test]
fn reshape_keeps_the_values() {
    let mut t = tensor(&[6], &[1, 2, 3, 4, 5, 6]);
    assert!(t.reshape(vec![2, 3]).is_ok());
    assert_eq!(t.shape(), &vec![2, 3]);
    assert_eq!(raws_of(t.data()), vec![1, 2, 3, 4, 5, 6]);
}

#[test]
fn reshape_rejects_another_size() {
    let mut t = tensor(&[6], &[1, 2, 3, 4, 5, 6]);
    assert_eq!(t.reshape(vec![4, 2]), Err(Error::ShapeMismatch));
    assert_eq!(t.shape(), &vec![6]);
}

#[test]
fn into_data_gives_the_values_up() {
    let t = tensor(&[2], &[11, 22]);
    assert_eq!(raws_of(&t.into_data()), vec![11, 22]);
}

#[test]
fn add_is_elementwise() {
    let a = tensor(&[2, 2], &[ONE, 2 * ONE, 3 * ONE, 4 * ONE]);
    let b = tensor(&[2, 2], &[10 * ONE, 20 * ONE, 30 * ONE, 40 * ONE]);
    let c = a.add(&b).ok().unwrap();
    assert_eq!(c.shape(), &vec![2, 2]);
    assert_eq!(raws_of(c.data()), vec![11 * ONE, 22 * ONE, 33 * ONE, 44 * ONE]);
}

#[test]
fn subtract_is_elementwise() {
    let a = tensor(&[3], &[ONE, 2 * ONE, 3 * ONE]);
    let b = tensor(&[3], &[3 * ONE, 2 * ONE, ONE]);
    let c = a.subtract(&b).ok().unwrap();
    assert_eq!(raws_of(c.data()), vec![-2 * ONE, 0, 2 * ONE]);
}

#[test]
fn multiply_is_elementwise() {
    let a = tensor(&[3], &[ONE / 2, 2 * ONE, -3 * ONE]);
    let b = tensor(&[3], &[ONE / 2, 2 * ONE, ONE]);
    let c = a.multiply(&b).ok().unwrap();
    assert_eq!(raws_of(c.data()), vec![ONE / 4, 4 * ONE, -3 * ONE]);
}

#[test]
fn elementwise_operations_reject_other_shapes() {
    let a = tensor(&[3, 1], &[1, 2, 3]);
    let b = tensor(&[3], &[1, 2, 3]);
    assert!(matches!(a.add(&b), Err(Error::ShapeMismatch)));
    assert!(matches!(a.subtract(&b), Err(Error::ShapeMismatch)));
    assert!(matches!(a.multiply(&b), Err(Error::ShapeMismatch)));
}

#[test]
fn scale_multiplies_every_value() {
    let a = tensor(&[3], &[ONE, -2 * ONE, 3 * ONE]);
    let c = a.scale(Fixed::from_raw(ONE / 2));
    assert_eq!(raws_of(c.data()), vec![ONE / 2, -ONE, 3 * ONE / 2]);
    assert_eq!(c.shape(), &vec![3]);
}

#[test]
fn power_scalar_raises_every_value() {
    let a = tensor(&[2, 2], &[ONE, -2 * ONE, 3 * ONE, ONE / 2]);
    assert_eq!(raws_of(a.power_scalar(2).data()), vec![ONE, 4 * ONE, 9 * ONE, ONE / 4]);
    assert_eq!(raws_of(a.power_scalar(3).data()), vec![ONE, -8 * ONE, 27 * ONE, ONE / 8]);
    assert_eq!(raws_of(a.power_scalar(0).data()), vec![ONE; 4]);
    assert_eq!(a.power_scalar(2).shape(), &vec![2, 2]);
}

#[test]
fn mean_reduces_to_one_value() {
    let a = tensor(&[2, 2], &[ONE, 2 * ONE, 3 * ONE, 4 * ONE]);
    let m = a.mean();
    assert_eq!(m.shape(), &vec![1]);
    assert_eq!(raws_of(m.data()), vec![5 * ONE / 2]);
}

#[test]
fn mean_of_nothing_is_zero() {
    let a = tensor(&[0], &[]);
    assert_eq!(raws_of(a.mean().data()), vec![0]);
}

#[test]
fn affine_multiplies_and_adds_the_bias_to_every_row() {
    let x = tensor(&[2, 2], &[ONE, 2 * ONE, 3 * ONE, 4 * ONE]);
    let w = tensor(&[2, 1], &[ONE / 2, -ONE]);
    let b = tensor(&[1], &[ONE / 4]);
    let y = x.affine(&w, &b).ok().unwrap();
    assert_eq!(y.shape(), &vec![2, 1]);
    assert_eq!(raws_of(y.data()), vec![-5 * ONE / 4, -9 * ONE / 4]);
}

#[test]
fn affine_with_several_outputs() {
    let x = tensor(&[2, 3], &[ONE, 0, -ONE, 2 * ONE, ONE, 0]);
    let w = tensor(&[3, 2], &[ONE, 2 * ONE, 3 * ONE, 4 * ONE, 5 * ONE, 6 * ONE]);
    let b = tensor(&[2], &[10 * ONE, 20 * ONE]);
    let y = x.affine(&w, &b).ok().unwrap();
    assert_eq!(y.shape(), &vec![2, 2]);
    assert_eq!(raws_of(y.data()), vec![6 * ONE, 16 * ONE, 15 * ONE, 28 * ONE]);
}

#[test]
fn affine_rejects_shapes_that_do_not_fit() {
    let x = tensor(&[2, 2], &[1, 2, 3, 4]);
    let w = tensor(&[2, 1], &[1, 2]);
    let b = tensor(&[1], &[1]);
    let wide = tensor(&[1, 2], &[1, 2]);
    let long_bias = tensor(&[2], &[1, 2]);
    let flat = tensor(&[4], &[1, 2, 3, 4]);
    assert!(x.affine_fits(&w, &b));
    assert!(!x.affine_fits(&wide, &b));
    assert!(matches!(x.affine(&wide, &b), Err(Error::ShapeMismatch)));
    assert!(matches!(x.affine(&w, &long_bias), Err(Error::ShapeMismatch)));
    assert!(matches!(flat.affine(&w, &b), Err(Error::ShapeMismatch)));
    assert!(matches!(x.affine(&w, &x), Err(Error::ShapeMismatch)));
}

#[test]
fn a_tracked_operand_makes_the_result_tracked() {
    let a = tensor(&[2], &[1, 2]).with_grad(true);
    let b = tensor(&[2], &[3, 4]);
    assert!(a.subtract(&b).ok().unwrap().requires_grad());
    assert!(b.subtract(&a).ok().unwrap().requires_grad());
    assert!(!b.subtract(&b).ok().unwrap().requires_grad());
    assert!(a.mean().requires_grad());
    assert!(!b.mean().requires_grad());
    assert!(a.power_scalar(2).requires_grad());
    assert!(a.scale(Fixed::one()).requires_grad());
}

#[test]
fn the_first_contribution_becomes_the_gradient() {
    let mut t = tensor(&[2], &[1, 2]).with_grad(true);
    assert_eq!(t.accumulate_grad(&numbers(&[5, 6])), Ok(()));
    assert_eq!(raws_of(t.grad().unwrap()), vec![5, 6]);
}

#[test]
fn later_contributions_add_up() {
    let mut t = tensor(&[2], &[1, 2]).with_grad(true);
    assert_eq!(t.accumulate_grad(&numbers(&[5, 6])), Ok(()));
    assert_eq!(t.accumulate_grad(&numbers(&[10, -20])), Ok(()));
    assert_eq!(raws_of(t.grad().unwrap()), vec![15, -14]);
}

#[test]
fn a_contribution_of_another_size_is_rejected() {
    let mut t = tensor(&[2], &[1, 2]).with_grad(true);
    assert_eq!(t.accumulate_grad(&numbers(&[5])), Err(Error::ShapeMismatch));
    assert!(t.grad().is_none());
}

#[test]
fn zero_grad_drops_the_gradient() {
    let mut t = tensor(&[2], &[1, 2]).with_grad(true);
    assert_eq!(t.accumulate_grad(&numbers(&[5, 6])), Ok(()));
    t.zero_grad();
    assert!(t.grad().is_none());
    t.zero_grad();
    assert!(t.grad().is_none());
}

#[test]
fn assign_replaces_the_values() {
    let mut t = tensor(&[2], &[1, 2]);
    assert_eq!(t.assign(numbers(&[7, 8])), Ok(()));
    assert_eq!(raws_of(t.data()), vec![7, 8]);
    assert_eq!(t.assign(numbers(&[7, 8, 9])), Err(Error::ShapeMismatch));
    assert_eq!(raws_of(t.data()), vec![7, 8]);
}
