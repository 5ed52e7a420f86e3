use tapegrad::error::Error;
use tapegrad::fixed::Fixed;
use tapegrad::graph::Graph;
use tapegrad::optim::Adam;
use tapegrad::tensor::Tensor;

const ONE: i64 = 1 << 32;

fn numbers(raws: &[i64]) -> Vec<Fixed> {
    raws.iter().map(|r| Fixed::from_raw(*r)).collect()
}

fn parameter(shape: &[usize], raws: &[i64]) -> Tensor {
    match Tensor::from_values(shape.to_vec(), numbers(raws)) {
        Ok(t) => t.with_grad(true),
        Err(_) => panic!("shape and values do not fit"),
    }
}

fn values(graph: &Graph, id: usize) -> Vec<i64> {
    graph.tensor(id).unwrap().data().iter().map(|v| v.raw()).collect()
}

fn gradient(graph: &Graph, id: usize) -> Option<Vec<i64>> {
    graph.tensor(id).unwrap().grad().map(|g| g.iter().map(|v| v.raw()).collect())
}

fn optimizer() -> Adam {
    Adam::new(
        Fixed::from_ratio(5, 100),
        Fixed::from_ratio(9, 10),
        Fixed::from_ratio(999, 1000),
        Fixed::from_ratio(1, 100000000),
    )
}

fn with_gradient_of_the_mean(graph: &mut Graph, id: usize) {
    let m = graph.mean(id).ok().unwrap();
    assert_eq!(graph.backward(m), Ok(()));
}

#[test]
fn nothing_is_registered_at_first() {
    let opt = optimizer();
    assert_eq!(opt.step_count(0), Err(Error::UnregisteredParameter));
}

#[test]
fn register_starts_at_step_zero() {
    let mut g = Graph::new();
    let p = g.insert(parameter(&[2], &[ONE, ONE]));
    let mut opt = optimizer();
    assert_eq!(opt.register(&g, p), Ok(()));
    assert_eq!(opt.step_count(p), Ok(0));
    assert_eq!(opt.step_count(p + 1), Err(Error::UnregisteredParameter));
}

#[test]
fn register_fails_on_a_missing_tensor() {
    let g = Graph::new();
    let mut opt = optimizer();
    assert_eq!(opt.register(&g, 3), Err(Error::ShapeMismatch));
    assert_eq!(opt.step_count(3), Err(Error::UnregisteredParameter));
}

#[test]
fn register_twice_keeps_the_state() {
    let mut g = Graph::new();
    let p = g.insert(parameter(&[1], &[ONE]));
    let mut opt = optimizer();
    assert_eq!(opt.register(&g, p), Ok(()));
    with_gradient_of_the_mean(&mut g, p);
    assert_eq!(opt.step(&mut g, &vec![p]), Ok(()));
    assert_eq!(opt.step_count(p), Ok(1));
    assert_eq!(opt.register(&g, p), Ok(()));
    assert_eq!(opt.step_count(p), Ok(1));
}

#[test]
fn step_passes_over_a_parameter_that_is_not_registered() {
    let mut g = Graph::new();
    let p = g.insert(parameter(&[1], &[ONE]));
    with_gradient_of_the_mean(&mut g, p);
    let mut opt = optimizer();
    assert_eq!(opt.step(&mut g, &vec![p]), Ok(()));
    assert_eq!(values(&g, p), vec![ONE]);
    assert_eq!(opt.step_count(p), Err(Error::UnregisteredParameter));
}

#[test]
fn step_passes_over_a_parameter_without_a_gradient() {
    let mut g = Graph::new();
    let p = g.insert(parameter(&[1], &[ONE]));
    let mut opt = optimizer();
    assert_eq!(opt.register(&g, p), Ok(()));
    assert_eq!(opt.step(&mut g, &vec![p]), Ok(()));
    assert_eq!(values(&g, p), vec![ONE]);
    assert_eq!(opt.step_count(p), Ok(0));
}

#[test]
fn step_passes_over_a_missing_tensor() {
    let mut g = Graph::new();
    let p = g.insert(parameter(&[1], &[ONE]));
    let mut opt = optimizer();
    assert_eq!(opt.register(&g, p), Ok(()));
    g.reset(0);
    assert_eq!(opt.step(&mut g, &vec![p]), Ok(()));
    assert_eq!(opt.step_count(p), Ok(0));
}

#[test]
fn the_first_step_moves_by_about_the_learning_rate_against_the_gradient() {
    let mut g = Graph::new();
    let q = g.insert(parameter(&[1], &[0]));
    let c = g.insert(parameter(&[1], &[13 * ONE / 2]).with_grad(false));
    let d = g.subtract(q, c).ok().unwrap();
    let s = g.power_scalar(d, 2).ok().unwrap();
    assert_eq!(g.backward(s), Ok(()));
    assert_eq!(gradient(&g, q), Some(vec![-13 * ONE]));
    let mut opt = optimizer();
    assert_eq!(opt.register(&g, q), Ok(()));
    assert_eq!(opt.step(&mut g, &vec![q]), Ok(()));
    assert_eq!(values(&g, q), vec![214748363]);
    assert_eq!(opt.step_count(q), Ok(1));
    assert_eq!(gradient(&g, q), Some(vec![-13 * ONE]));
    assert_eq!(values(&g, c), vec![13 * ONE / 2]);
}

#[test]
fn the_step_count_grows_by_one_with_every_update() {
    let mut g = Graph::new();
    let p = g.insert(parameter(&[2], &[ONE, -ONE]));
    let mut opt = optimizer();
    assert_eq!(opt.register(&g, p), Ok(()));
    let mut last = values(&g, p);
    for k in 1..=5u64 {
        with_gradient_of_the_mean(&mut g, p);
        assert_eq!(opt.step(&mut g, &vec![p]), Ok(()));
        assert_eq!(opt.step_count(p), Ok(k));
        let now = values(&g, p);
        assert!(now[0] < last[0]);
        assert!(now[1] < last[1]);
        last = now;
        opt.zero_grad(&mut g, &vec![p]);
        g.reset(1);
    }
}

#[test]
fn a_parameter_named_twice_is_updated_twice() {
    let mut g = Graph::new();
    let p = g.insert(parameter(&[1], &[ONE]));
    let mut opt = optimizer();
    assert_eq!(opt.register(&g, p), Ok(()));
    with_gradient_of_the_mean(&mut g, p);
    assert_eq!(opt.step(&mut g, &vec![p, p]), Ok(()));
    assert_eq!(opt.step_count(p), Ok(2));
}

#[test]
fn zero_grad_drops_the_gradients_of_the_parameters() {
    let mut g = Graph::new();
    let p = g.insert(parameter(&[1], &[ONE]));
    let opt = optimizer();
    with_gradient_of_the_mean(&mut g, p);
    assert_eq!(gradient(&g, p), Some(vec![ONE]));
    opt.zero_grad(&mut g, &vec![p]);
    assert_eq!(gradient(&g, p), None);
    opt.zero_grad(&mut g, &vec![p]);
    assert_eq!(gradient(&g, p), None);
}

#[test]
fn without_zero_grad_the_gradients_of_two_epochs_add_up() {
    let mut g = Graph::new();
    let p = g.insert(parameter(&[1], &[ONE]));
    with_gradient_of_the_mean(&mut g, p);
    with_gradient_of_the_mean(&mut g, p);
    assert_eq!(gradient(&g, p), Some(vec![2 * ONE]));
}

#[test]
fn a_state_of_another_size_blocks_the_step() {
    let mut g = Graph::new();
    let p = g.insert(parameter(&[1], &[ONE]));
    let other = g.insert(parameter(&[1], &[5 * ONE]));
    let mut opt = optimizer();
    assert_eq!(opt.register(&g, p), Ok(()));
    assert_eq!(opt.register(&g, other), Ok(()));
    g.reset(0);
    let q = g.insert(parameter(&[2], &[ONE, 2 * ONE]));
    let r = g.insert(parameter(&[1], &[5 * ONE]));
    assert_eq!((q, r), (p, other));
    with_gradient_of_the_mean(&mut g, q);
    with_gradient_of_the_mean(&mut g, r);
    assert!(!opt.sized_for(&g, &vec![r, q]));
    assert!(opt.sized_for(&g, &vec![r]));
    assert_eq!(opt.step(&mut g, &vec![r, q]), Err(Error::ShapeMismatch));
    assert_eq!(values(&g, q), vec![ONE, 2 * ONE]);
    assert_eq!(values(&g, r), vec![5 * ONE]);
    assert_eq!(opt.step_count(r), Ok(0));
    assert_eq!(opt.step_count(q), Ok(0));
}
