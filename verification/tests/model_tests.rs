use tapegrad::data::{draw_input, draw_unit, generate_data, noisy_target};
use tapegrad::error::Error;
use tapegrad::fixed::Fixed;
use tapegrad::graph::Graph;
use tapegrad::model::LinearRegression;
use tapegrad::tensor::Tensor;

const ONE: i64 = 1 << 32;

fn numbers(raws: &[i64]) -> Vec<Fixed> {
    raws.iter().map(|r| Fixed::from_raw(*r)).collect()
}

fn values(graph: &Graph, id: usize) -> Vec<i64> {
    graph.tensor(id).unwrap().data().iter().map(|v| v.raw()).collect()
}

#[test]
fn with_values_puts_weight_and_bias_into_the_arena() {
    let mut g = Graph::new();
    let first = g.insert(Tensor::scalar(Fixed::one()));
    let model = LinearRegression::with_values(&mut g, Fixed::from_int(2), Fixed::from_int(-1));
    assert_eq!(first, 0);
    assert_eq!((model.weight, model.bias), (1, 2));
    assert_eq!(model.parameters(), vec![1, 2]);
    assert_eq!(g.tensor(model.weight).unwrap().shape(), &vec![1, 1]);
    assert_eq!(g.tensor(model.bias).unwrap().shape(), &vec![1]);
    assert_eq!(values(&g, model.weight), vec![2 * ONE]);
    assert_eq!(values(&g, model.bias), vec![-ONE]);
    assert!(g.tensor(model.weight).unwrap().requires_grad());
    assert!(g.tensor(model.bias).unwrap().requires_grad());
    assert!(g.tensor(model.weight).unwrap().grad().is_none());
}

#[test]
fn new_draws_the_parameters_between_minus_one_and_one() {
    let mut seen = Vec::new();
    for _ in 0..50 {
        let mut g = Graph::new();
        let model = LinearRegression::new(&mut g);
        assert_eq!((model.weight, model.bias), (0, 1));
        let w = values(&g, model.weight)[0];
        let b = values(&g, model.bias)[0];
        assert!(-ONE <= w && w < ONE);
        assert!(-ONE <= b && b < ONE);
        assert!(g.tensor(model.weight).unwrap().requires_grad());
        seen.push(w);
        seen.push(b);
    }
    assert!(seen.iter().any(|v| *v != seen[0]));
    assert!(seen.iter().any(|v| *v != -ONE));
}

#[test]
fn forward_is_the_affine_map_of_the_parameters() {
    let mut g = Graph::new();
    let model = LinearRegression::with_values(&mut g, Fixed::from_int(2), Fixed::one());
    let x = g.insert(Tensor::from_values(vec![3, 1], numbers(&[0, ONE, -2 * ONE])).ok().unwrap());
    let y = model.forward(&mut g, x).ok().unwrap();
    assert_eq!(y, 3);
    assert_eq!(values(&g, y), vec![ONE, 3 * ONE, -3 * ONE]);
    assert_eq!(g.tensor(y).unwrap().shape(), &vec![3, 1]);
    assert_eq!(g.tape_len(), 1);
}

#[test]
fn forward_rejects_inputs_that_are_no_column() {
    let mut g = Graph::new();
    let model = LinearRegression::with_values(&mut g, Fixed::from_int(2), Fixed::one());
    let flat = g.insert(Tensor::from_values(vec![3], numbers(&[0, ONE, -2 * ONE])).ok().unwrap());
    assert_eq!(model.forward(&mut g, flat), Err(Error::ShapeMismatch));
    assert_eq!(model.forward(&mut g, 9), Err(Error::ShapeMismatch));
    assert_eq!(g.len(), 3);
    assert_eq!(g.tape_len(), 0);
}

#[test]
fn noisy_target_is_twice_the_input_plus_one_plus_the_noise() {
    assert_eq!(noisy_target(Fixed::from_int(3), Fixed::zero()).raw(), 7 * ONE);
    assert_eq!(noisy_target(Fixed::from_int(-10), Fixed::from_raw(-ONE)).raw(), -20 * ONE);
    assert_eq!(noisy_target(Fixed::from_raw(ONE / 2), Fixed::from_raw(ONE / 4)).raw(), 9 * ONE / 4);
    assert_eq!(noisy_target(Fixed::from_raw(i64::MAX), Fixed::zero()).raw(), i64::MAX);
}

#[test]
fn draws_stay_in_their_ranges_and_vary() {
    let mut units = Vec::new();
    let mut inputs = Vec::new();
    for _ in 0..200 {
        let u = draw_unit().raw();
        let x = draw_input().raw();
        assert!(-ONE <= u && u < ONE);
        assert!(-10 * ONE <= x && x < 10 * ONE);
        units.push(u);
        inputs.push(x);
    }
    assert!(units.iter().any(|u| *u != units[0]));
    assert!(inputs.iter().any(|x| *x != inputs[0]));
    assert!(units.iter().any(|u| *u != -ONE));
    assert!(inputs.iter().any(|x| *x != -10 * ONE));
}

#[test]
fn generate_data_scatters_the_targets_around_the_line() {
    let (xs, ys) = generate_data(100);
    assert_eq!(xs.len(), 100);
    assert_eq!(ys.len(), 100);
    for (x, y) in xs.iter().zip(ys.iter()) {
        assert!(-10 * ONE <= x.raw() && x.raw() < 10 * ONE);
        let noise = y.raw() - (2 * x.raw() + ONE);
        assert!(-ONE <= noise && noise < ONE);
    }
    assert!(xs.iter().any(|x| x.raw() != xs[0].raw()));
    assert!((0..100).any(|i| ys[i].raw() - 2 * xs[i].raw() != ys[0].raw() - 2 * xs[0].raw()));
}

#[test]
fn generate_data_of_nothing_is_empty() {
    let (xs, ys) = generate_data(0);
    assert!(xs.is_empty());
    assert!(ys.is_empty());
}
