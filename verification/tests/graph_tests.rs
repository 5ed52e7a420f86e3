use tapegrad::error::Error;
use tapegrad::fixed::Fixed;
use tapegrad::graph::Graph;
use tapegrad::tensor::Tensor;

const ONE: i64 = 1 << 32;

fn numbers(raws: &[i64]) -> Vec<Fixed> {
    raws.iter().map(|r| Fixed::from_raw(*r)).collect()
}

fn leaf(shape: &[usize], raws: &[i64], tracked_leaf: bool) -> Tensor {
    match Tensor::from_values(shape.to_vec(), numbers(raws)) {
        Ok(t) => t.with_grad(tracked_leaf),
        Err(_) => panic!("shape and values do not fit"),
    }
}

fn values(graph: &Graph, id: usize) -> Vec<i64> {
    graph.tensor(id).unwrap().data().iter().map(|v| v.raw()).collect()
}

fn gradient(graph: &Graph, id: usize) -> Option<Vec<i64>> {
    graph.tensor(id).unwrap().grad().map(|g| g.iter().map(|v| v.raw()).collect())
}

#[test]
fn a_new_graph_is_empty() {
    let g = Graph::new();
    assert_eq!(g.len(), 0);
    assert_eq!(g.tape_len(), 0);
    assert!(g.tensor(0).is_none());
}

#[test]
fn insert_hands_out_identifiers_in_order() {
    let mut g = Graph::new();
    assert_eq!(g.insert(leaf(&[1], &[ONE], false)), 0);
    assert_eq!(g.insert(leaf(&[2], &[ONE, ONE], true)), 1);
    assert_eq!(g.len(), 2);
    assert_eq!(g.tape_len(), 0);
    assert_eq!(values(&g, 1), vec![ONE, ONE]);
    assert!(g.tensor(2).is_none());
}

#[test]
fn operations_on_untracked_tensors_record_nothing() {
    let mut g = Graph::new();
    let a = g.insert(leaf(&[2], &[3 * ONE, 5 * ONE], false));
    let b = g.insert(leaf(&[2], &[ONE, ONE], false));
    let d = g.subtract(a, b).ok().unwrap();
    let p = g.power_scalar(d, 2).ok().unwrap();
    let m = g.mean(p).ok().unwrap();
    assert_eq!((d, p, m), (2, 3, 4));
    assert_eq!(g.tape_len(), 0);
    assert_eq!(values(&g, d), vec![2 * ONE, 4 * ONE]);
    assert_eq!(values(&g, p), vec![4 * ONE, 16 * ONE]);
    assert_eq!(values(&g, m), vec![10 * ONE]);
    assert!(!g.tensor(m).unwrap().requires_grad());
}

#[test]
fn operations_on_tracked_tensors_are_recorded() {
    let mut g = Graph::new();
    let a = g.insert(leaf(&[2], &[3 * ONE, 5 * ONE], true));
    let b = g.insert(leaf(&[2], &[ONE, ONE], false));
    let d = g.subtract(a, b).ok().unwrap();
    assert_eq!(g.tape_len(), 1);
    let p = g.power_scalar(d, 2).ok().unwrap();
    assert_eq!(g.tape_len(), 2);
    let m = g.mean(p).ok().unwrap();
    assert_eq!(g.tape_len(), 3);
    assert!(g.tensor(m).unwrap().requires_grad());
    assert_eq!(g.tensor(m).unwrap().shape(), &vec![1]);
}

#[test]
fn operations_fail_on_missing_tensors() {
    let mut g = Graph::new();
    let a = g.insert(leaf(&[2], &[ONE, ONE], true));
    assert_eq!(g.subtract(a, 7), Err(Error::ShapeMismatch));
    assert_eq!(g.subtract(7, a), Err(Error::ShapeMismatch));
    assert_eq!(g.power_scalar(7, 2), Err(Error::ShapeMismatch));
    assert_eq!(g.mean(7), Err(Error::ShapeMismatch));
    assert_eq!(g.affine(a, a, 7), Err(Error::ShapeMismatch));
    assert_eq!(g.len(), 1);
    assert_eq!(g.tape_len(), 0);
}

#[test]
fn subtract_fails_on_other_shapes_and_changes_nothing() {
    let mut g = Graph::new();
    let a = g.insert(leaf(&[3, 1], &[1, 2, 3], true));
    let b = g.insert(leaf(&[3], &[1, 2, 3], true));
    assert_eq!(g.subtract(a, b), Err(Error::ShapeMismatch));
    assert_eq!(g.len(), 2);
    assert_eq!(g.tape_len(), 0);
}

#[test]
fn affine_appends_the_product() {
    let mut g = Graph::new();
    let x = g.insert(leaf(&[2, 2], &[ONE, 2 * ONE, 3 * ONE, 4 * ONE], false));
    let w = g.insert(leaf(&[2, 1], &[ONE / 2, -ONE], true));
    let b = g.insert(leaf(&[1], &[ONE / 4], true));
    assert!(g.affine_fits(x, w, b));
    assert!(!g.affine_fits(x, b, w));
    assert!(!g.affine_fits(x, w, 9));
    let y = g.affine(x, w, b).ok().unwrap();
    assert_eq!(y, 3);
    assert_eq!(values(&g, y), vec![-5 * ONE / 4, -9 * ONE / 4]);
    assert_eq!(g.tensor(y).unwrap().shape(), &vec![2, 1]);
    assert_eq!(g.tape_len(), 1);
    assert_eq!(g.affine(x, b, w), Err(Error::ShapeMismatch));
    assert_eq!(g.len(), 4);
}

#[test]
fn the_gradient_of_the_mean_squared_error_is_twice_the_difference_over_the_count() {
    let mut g = Graph::new();
    let a = g.insert(leaf(&[4], &[ONE, 2 * ONE, 3 * ONE, 4 * ONE], true));
    let b = g.insert(leaf(&[4], &[ONE / 2, ONE, 5 * ONE, 2 * ONE], false));
    let d = g.subtract(a, b).ok().unwrap();
    let p = g.power_scalar(d, 2).ok().unwrap();
    let m = g.mean(p).ok().unwrap();
    assert_eq!(g.backward(m), Ok(()));
    assert_eq!(gradient(&g, a), Some(vec![ONE / 4, ONE / 2, -ONE, ONE]));
    assert_eq!(gradient(&g, b), None);
    assert_eq!(gradient(&g, m), Some(vec![ONE]));
    assert_eq!(gradient(&g, p), Some(vec![ONE / 4; 4]));
    assert_eq!(values(&g, a), vec![ONE, 2 * ONE, 3 * ONE, 4 * ONE]);
}

#[test]
fn the_subtrahend_receives_the_negated_gradient() {
    let mut g = Graph::new();
    let a = g.insert(leaf(&[2], &[ONE, 2 * ONE], true));
    let b = g.insert(leaf(&[2], &[3 * ONE, 5 * ONE], true));
    let d = g.subtract(a, b).ok().unwrap();
    let m = g.mean(d).ok().unwrap();
    assert_eq!(g.backward(m), Ok(()));
    assert_eq!(gradient(&g, a), Some(vec![ONE / 2, ONE / 2]));
    assert_eq!(gradient(&g, b), Some(vec![-ONE / 2, -ONE / 2]));
}

#[test]
fn the_gradient_of_a_power_is_the_exponent_times_the_next_lower_power() {
    let mut g = Graph::new();
    let x = g.insert(leaf(&[1], &[3 * ONE], true));
    let cube = g.power_scalar(x, 3).ok().unwrap();
    assert_eq!(g.backward(cube), Ok(()));
    assert_eq!(gradient(&g, x), Some(vec![27 * ONE]));
}

#[test]
fn the_gradient_of_the_power_zero_is_zero() {
    let mut g = Graph::new();
    let x = g.insert(leaf(&[1], &[3 * ONE], true));
    let unit = g.power_scalar(x, 0).ok().unwrap();
    assert_eq!(values(&g, unit), vec![ONE]);
    assert_eq!(g.backward(unit), Ok(()));
    assert_eq!(gradient(&g, x), Some(vec![0]));
}

#[test]
fn gradients_of_an_affine_map() {
    let mut g = Graph::new();
    let x = g.insert(leaf(&[2, 2], &[ONE, 2 * ONE, 3 * ONE, 4 * ONE], true));
    let w = g.insert(leaf(&[2, 2], &[ONE, -ONE, 2 * ONE, ONE / 2], true));
    let b = g.insert(leaf(&[2], &[0, 0], true));
    let y = g.affine(x, w, b).ok().unwrap();
    assert_eq!(values(&g, y), vec![5 * ONE, 0, 11 * ONE, -ONE]);
    let m = g.mean(y).ok().unwrap();
    assert_eq!(g.backward(m), Ok(()));
    assert_eq!(gradient(&g, y), Some(vec![ONE / 4; 4]));
    assert_eq!(gradient(&g, w), Some(vec![ONE, ONE, 3 * ONE / 2, 3 * ONE / 2]));
    assert_eq!(gradient(&g, b), Some(vec![ONE / 2, ONE / 2]));
    assert_eq!(gradient(&g, x), Some(vec![0, 5 * ONE / 8, 0, 5 * ONE / 8]));
}

#[test]
fn contributions_from_two_operations_add_up() {
    let mut g = Graph::new();
    let x = g.insert(leaf(&[1], &[5 * ONE], true));
    let c = g.insert(leaf(&[1], &[ONE], false));
    let u = g.subtract(x, c).ok().unwrap();
    let v = g.subtract(c, x).ok().unwrap();
    let w = g.subtract(u, v).ok().unwrap();
    assert_eq!(values(&g, w), vec![8 * ONE]);
    assert_eq!(g.backward(w), Ok(()));
    assert_eq!(gradient(&g, u), Some(vec![ONE]));
    assert_eq!(gradient(&g, v), Some(vec![-ONE]));
    assert_eq!(gradient(&g, x), Some(vec![2 * ONE]));
}

#[test]
fn a_tensor_subtracted_from_itself_gets_both_contributions() {
    let mut g = Graph::new();
    let x = g.insert(leaf(&[1], &[5 * ONE], true));
    let d = g.subtract(x, x).ok().unwrap();
    assert_eq!(g.backward(d), Ok(()));
    assert_eq!(gradient(&g, x), Some(vec![0]));
}

#[test]
fn gradients_accumulate_across_backward_passes() {
    let mut g = Graph::new();
    let x = g.insert(leaf(&[2], &[ONE, 3 * ONE], true));
    let m = g.mean(x).ok().unwrap();
    assert_eq!(g.backward(m), Ok(()));
    assert_eq!(gradient(&g, x), Some(vec![ONE / 2, ONE / 2]));
    let m2 = g.mean(x).ok().unwrap();
    assert_eq!(g.backward(m2), Ok(()));
    assert_eq!(gradient(&g, x), Some(vec![ONE, ONE]));
}

#[test]
fn backward_empties_the_tape_and_keeps_the_gradients() {
    let mut g = Graph::new();
    let x = g.insert(leaf(&[2], &[ONE, 3 * ONE], true));
    let m = g.mean(x).ok().unwrap();
    assert_eq!(g.tape_len(), 1);
    assert_eq!(g.backward(m), Ok(()));
    assert_eq!(g.tape_len(), 0);
    assert_eq!(g.len(), 2);
    assert_eq!(gradient(&g, x), Some(vec![ONE / 2, ONE / 2]));
}

#[test]
fn backward_takes_the_empty_shape_as_a_scalar() {
    let mut g = Graph::new();
    let x = g.insert(leaf(&[], &[4 * ONE], true));
    let p = g.power_scalar(x, 2).ok().unwrap();
    assert_eq!(g.backward(p), Ok(()));
    assert_eq!(gradient(&g, x), Some(vec![8 * ONE]));
}

#[test]
fn backward_from_a_tensor_that_is_no_scalar_fails_and_changes_nothing() {
    let mut g = Graph::new();
    let x = g.insert(leaf(&[5, 1], &[ONE, 2 * ONE, 3 * ONE, 4 * ONE, 5 * ONE], true));
    let m = g.mean(x).ok().unwrap();
    assert_eq!(g.backward(m), Ok(()));
    let before = gradient(&g, x);
    let p = g.power_scalar(x, 2).ok().unwrap();
    assert_eq!(g.tape_len(), 1);
    assert_eq!(g.backward(p), Err(Error::NonScalarBackward));
    assert_eq!(g.backward(x), Err(Error::NonScalarBackward));
    assert_eq!(gradient(&g, x), before);
    assert_eq!(gradient(&g, p), None);
    assert_eq!(gradient(&g, m), Some(vec![ONE]));
    assert_eq!(g.tape_len(), 1);
    assert_eq!(g.len(), 3);
}

#[test]
fn backward_from_a_one_by_one_matrix_fails() {
    let mut g = Graph::new();
    let x = g.insert(leaf(&[1, 1], &[ONE], true));
    assert_eq!(g.backward(x), Err(Error::NonScalarBackward));
    assert_eq!(gradient(&g, x), None);
}

#[test]
fn backward_from_a_missing_tensor_fails() {
    let mut g = Graph::new();
    assert_eq!(g.backward(0), Err(Error::NonScalarBackward));
}

#[test]
fn zero_grad_twice_is_zero_grad_once() {
    let mut g = Graph::new();
    let a = g.insert(leaf(&[2], &[ONE, 3 * ONE], true));
    let b = g.insert(leaf(&[2], &[ONE, ONE], true));
    let d = g.subtract(a, b).ok().unwrap();
    let m = g.mean(d).ok().unwrap();
    assert_eq!(g.backward(m), Ok(()));
    assert!(gradient(&g, a).is_some());
    assert!(gradient(&g, b).is_some());
    g.zero_grad(&vec![a, b, 99]);
    assert_eq!(gradient(&g, a), None);
    assert_eq!(gradient(&g, b), None);
    assert_eq!(gradient(&g, d), Some(vec![ONE / 2, ONE / 2]));
    g.zero_grad(&vec![a, b, 99]);
    assert_eq!(gradient(&g, a), None);
    assert_eq!(gradient(&g, b), None);
    assert_eq!(gradient(&g, d), Some(vec![ONE / 2, ONE / 2]));
    assert_eq!(values(&g, a), vec![ONE, 3 * ONE]);
}

#[test]
fn assign_replaces_values_in_place() {
    let mut g = Graph::new();
    let a = g.insert(leaf(&[2], &[ONE, 3 * ONE], true));
    assert_eq!(g.assign(a, numbers(&[7, 8])), Ok(()));
    assert_eq!(values(&g, a), vec![7, 8]);
    assert_eq!(g.assign(a, numbers(&[7])), Err(Error::ShapeMismatch));
    assert_eq!(g.assign(5, numbers(&[7, 8])), Err(Error::ShapeMismatch));
    assert_eq!(values(&g, a), vec![7, 8]);
}

#[test]
fn a_node_keeps_the_values_that_its_operation_read() {
    let mut g = Graph::new();
    let x = g.insert(leaf(&[1], &[3 * ONE], true));
    let p = g.power_scalar(x, 2).ok().unwrap();
    assert_eq!(g.assign(x, numbers(&[100 * ONE])), Ok(()));
    assert_eq!(g.backward(p), Ok(()));
    assert_eq!(gradient(&g, x), Some(vec![6 * ONE]));
}

#[test]
fn reset_cuts_the_arena_back_and_empties_the_tape() {
    let mut g = Graph::new();
    let a = g.insert(leaf(&[2], &[ONE, 3 * ONE], true));
    let m = g.mean(a).ok().unwrap();
    assert_eq!((g.len(), g.tape_len()), (2, 1));
    g.reset(1);
    assert_eq!((g.len(), g.tape_len()), (1, 0));
    assert!(g.tensor(m).is_none());
    assert_eq!(values(&g, a), vec![ONE, 3 * ONE]);
    g.reset(5);
    assert_eq!((g.len(), g.tape_len()), (1, 0));
}
