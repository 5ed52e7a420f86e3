//! A linear model with one input and one output: `y = x * weight + bias`.

use crate::data::draw_unit;
use crate::error::Error;
use crate::fixed::{Fixed, ONE_RAW};
use crate::graph::Graph;
use crate::shape::lemma_shape_product_two;
use crate::tensor::{Tensor, TensorView};
use vstd::prelude::*;

verus! {

/// What a freshly made parameter of the model is: a tracked tensor of the
/// given shape with the one value `v` and no gradient.
pub open spec fn parameter(shape: Seq<usize>, v: int) -> TensorView {
    TensorView::fresh(shape, seq![v], true)
}

/// A linear model with one input and one output. It names its two
/// parameters, which live in a graph's arena.
#[derive(Clone, Copy, Debug, PartialEq, Eq, Structural)]
pub struct LinearRegression {
    pub weight: usize,
    pub bias: usize,
}

impl LinearRegression {
    /// A model whose parameters start at the given values: the weight, a
    /// one by one matrix, and the bias, a vector of one entry, are put
    /// into the arena, both tracked.
    pub fn with_values(graph: &mut Graph, weight: Fixed, bias: Fixed) -> (model: LinearRegression)
        requires
            old(graph).wf(),
        ensures
            final(graph).wf(),
            model.weight == old(graph)@.tensors.len(),
            model.bias == old(graph)@.tensors.len() + 1,
            final(graph)@ == old(graph)@.insert(parameter(seq![1usize, 1usize], weight@)).insert(
                parameter(seq![1usize], bias@),
            ),
    {
        let mut shape: Vec<usize> = Vec::new();
        shape.push(1);
        shape.push(1);
        proof {
            assert(shape@ =~= seq![1usize, 1usize]);
            lemma_shape_product_two(shape@);
        }
        let mut w: Tensor = Tensor::scalar(weight);
        let _ = w.reshape(shape);
        let w: Tensor = w.with_grad(true);
        let b: Tensor = Tensor::scalar(bias).with_grad(true);
        let weight_id: usize = graph.insert(w);
        let bias_id: usize = graph.insert(b);
        assert(bias_id == weight_id + 1);
        LinearRegression { weight: weight_id, bias: bias_id }
    }

    /// A model whose parameters start at numbers drawn from minus one up
    /// to one.
    pub fn new(graph: &mut Graph) -> (model: LinearRegression)
        requires
            old(graph).wf(),
        ensures
            final(graph).wf(),
            model.weight == old(graph)@.tensors.len(),
            model.bias == old(graph)@.tensors.len() + 1,
            exists|w: int, b: int|
                -ONE_RAW <= w < ONE_RAW && -ONE_RAW <= b < ONE_RAW && final(graph)@ == old(graph)@.insert(parameter(seq![1usize, 1usize], w)).insert(parameter(seq![1usize], b)),
    {
        let weight: Fixed = draw_unit();
        let bias: Fixed = draw_unit();
        LinearRegression::with_values(graph, weight, bias)
    }

    /// The identifiers of the model's parameters: the weight, then the
    /// bias.
    pub fn parameters(&self) -> (ids: Vec<usize>)
        ensures
            ids@ == seq![self.weight, self.bias],
    {
        let mut ids: Vec<usize> = Vec::new();
        ids.push(self.weight);
        ids.push(self.bias);
        assert(ids@ =~= seq![self.weight, self.bias]);
        ids
    }

    /// The model's prediction `x * weight + bias` for the inputs in
    /// tensor `x`, one per row. The result is appended to the arena and
    /// its identifier returned. Fails, and changes nothing, when `x` or a
    /// parameter is missing or `x` is not a matrix of one column.
    pub fn forward(&self, graph: &mut Graph, x: usize) -> (r: Result<usize, Error>)
        requires
            old(graph).wf(),
        ensures
            final(graph).wf(),
            match r {
                Ok(id) => {
                    &&& old(graph)@.affine_fits(x, self.weight, self.bias)
                    &&& id == old(graph)@.tensors.len()
                    &&& final(graph)@ == old(graph)@.affine(x, self.weight, self.bias)
                },
                Err(e) => {
                    &&& e == Error::ShapeMismatch
                    &&& !old(graph)@.affine_fits(x, self.weight, self.bias)
                    &&& final(graph)@ == old(graph)@
                },
            },
    {
        graph.affine(x, self.weight, self.bias)
    }
}

} // verus!
