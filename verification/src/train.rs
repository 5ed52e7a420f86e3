//! Fitting the linear model: the mean squared error, one epoch of
//! training, and a run of epochs that reports the loss of each.

use crate::error::Error;
use crate::fixed::Fixed;
use crate::graph::{Graph, GraphView};
use crate::model::LinearRegression;
use crate::numeric::raws;
use crate::optim::{lemma_same_layout, lemma_sized_not_blocked, same_layout, Adam, AdamView};
use crate::tensor::{affine_data, affine_fits, Tensor};
use vstd::prelude::*;

verus! {

/// The graph after the mean squared error of `prediction` against `target`
/// was formed: their difference, its square, and the mean of the squares.
pub open spec fn with_loss(g: GraphView, prediction: usize, target: usize) -> GraphView {
    let g1 = g.subtract(prediction, target);
    let g2 = g1.power_scalar(g.next_id(), 2);
    g2.mean(g1.next_id())
}

/// The mean squared error `mean((prediction - target)^2)` of two tensors
/// of the arena. Three tensors are appended, of which the last holds the
/// error; its identifier is returned. Fails, and changes nothing, when a
/// tensor is missing or the shapes differ.
pub fn mse_loss(graph: &mut Graph, prediction: usize, target: usize) -> (r: Result<usize, Error>)
    requires
        old(graph).wf(),
    ensures
        final(graph).wf(),
        match r {
            Ok(id) => {
                &&& old(graph)@.subtract_fits(prediction, target)
                &&& id == old(graph)@.tensors.len() + 2
                &&& final(graph)@ == with_loss(old(graph)@, prediction, target)
            },
            Err(e) => {
                &&& e == Error::ShapeMismatch
                &&& !old(graph)@.subtract_fits(prediction, target)
                &&& final(graph)@ == old(graph)@
            },
        },
{
    let difference: usize = match graph.subtract(prediction, target) {
        Ok(id) => id,
        Err(e) => {
            return Err(e);
        },
    };
    let squares: usize = match graph.power_scalar(difference, 2) {
        Ok(id) => id,
        Err(e) => {
            return Err(e);
        },
    };
    graph.mean(squares)
}

/// The model's two parameters.
pub open spec fn parameters(model: LinearRegression) -> Seq<usize> {
    seq![model.weight, model.bias]
}

/// Whether an epoch can run: the model can be applied to `x`, `y` has the
/// shape of the model's prediction, and the optimizer's states have the
/// sizes of the model's parameters.
pub open spec fn epoch_fits(
    opt: AdamView,
    g: GraphView,
    model: LinearRegression,
    x: usize,
    y: usize,
) -> bool {
    &&& g.affine_fits(x, model.weight, model.bias)
    &&& y < g.tensors.len()
    &&& g.tensors[y as int].shape == seq![
        g.tensors[x as int].shape[0],
        g.tensors[model.weight as int].shape[1],
    ]
    &&& opt.sized_for(g, parameters(model))
}

/// The graph after the forward pass of an epoch: the prediction and the
/// three tensors of its mean squared error against `y`.
pub open spec fn forward_pass(g: GraphView, model: LinearRegression, x: usize, y: usize) -> GraphView {
    with_loss(g.affine(x, model.weight, model.bias), g.next_id(), y)
}

/// The identifier of the loss of an epoch that starts from `g`.
pub open spec fn loss_id(g: GraphView) -> usize {
    (g.tensors.len() + 3) as usize
}

/// The loss of an epoch that starts from `g`.
pub open spec fn epoch_loss(g: GraphView, model: LinearRegression, x: usize, y: usize) -> int {
    forward_pass(g, model, x, y).tensors[loss_id(g) as int].data[0]
}

/// The optimizer and the graph after one epoch: forward pass, backward
/// pass from the loss, one optimizer step on the model's parameters, their
/// gradients dropped, and the arena cut back to what it held before.
pub open spec fn epoch(opt: AdamView, g: GraphView, model: LinearRegression, x: usize, y: usize) -> (
    AdamView,
    GraphView,
) {
    let g1 = forward_pass(g, model, x, y).backward(loss_id(g));
    let (o, g2) = opt.step(g1, parameters(model));
    (o, g2.zero_grad(parameters(model)).reset(g.next_id()))
}

/// Whether an epoch can run.
pub fn can_run_epoch(
    model: &LinearRegression,
    graph: &Graph,
    optimizer: &Adam,
    x: usize,
    y: usize,
) -> (r: bool)
    requires
        graph.wf(),
        optimizer.wf(),
    ensures
        r == epoch_fits(optimizer@, graph@, *model, x, y),
{
    if !graph.affine_fits(x, model.weight, model.bias) {
        return false;
    }
    let rows: usize = match graph.tensor(x) {
        Some(t) => t.shape()[0],
        None => 0,
    };
    let cols: usize = match graph.tensor(model.weight) {
        Some(t) => t.shape()[1],
        None => 0,
    };
    let shaped: bool = match graph.tensor(y) {
        Some(t) => {
            let shape = t.shape();
            let same: bool = shape.len() == 2 && shape[0] == rows && shape[1] == cols;
            proof {
                if same {
                    assert(shape@ =~= seq![rows, cols]);
                }
            }
            same
        },
        None => false,
    };
    if !shaped {
        return false;
    }
    let params = model.parameters();
    optimizer.sized_for(graph, &params)
}

/// One epoch of training on the inputs in tensor `x` and the targets in
/// tensor `y`: the model's prediction, its mean squared error, a backward
/// pass, one optimizer step, and a clean-up that drops the parameters'
/// gradients and the tensors that the epoch made. Returns the loss.
/// Fails, and changes nothing, when the epoch cannot run.
pub fn train_epoch(
    model: &LinearRegression,
    graph: &mut Graph,
    optimizer: &mut Adam,
    x: usize,
    y: usize,
) -> (r: Result<Fixed, Error>)
    requires
        old(graph).wf(),
        old(optimizer).wf(),
    ensures
        final(graph).wf(),
        final(optimizer).wf(),
        match r {
            Ok(loss) => {
                &&& epoch_fits(old(optimizer)@, old(graph)@, *model, x, y)
                &&& (final(optimizer)@, final(graph)@) == epoch(
                    old(optimizer)@,
                    old(graph)@,
                    *model,
                    x,
                    y,
                )
                &&& loss@ == epoch_loss(old(graph)@, *model, x, y)
                &&& epoch_fits(final(optimizer)@, final(graph)@, *model, x, y)
            },
            Err(e) => {
                &&& e == Error::ShapeMismatch
                &&& !epoch_fits(old(optimizer)@, old(graph)@, *model, x, y)
                &&& final(graph)@ == old(graph)@
                &&& final(optimizer)@ == old(optimizer)@
            },
        },
{
    if !can_run_epoch(model, graph, optimizer, x, y) {
        return Err(Error::ShapeMismatch);
    }
    let ghost g0 = graph@;
    let ghost o0 = optimizer@;
    let mark: usize = graph.len();
    let params = model.parameters();
    let prediction: usize = match model.forward(graph, x) {
        Ok(id) => id,
        Err(e) => {
            return Err(e);
        },
    };
    let loss: usize = match mse_loss(graph, prediction, y) {
        Ok(id) => id,
        Err(e) => {
            return Err(e);
        },
    };
    let ghost g1 = graph@;
    assert(g1 == forward_pass(g0, *model, x, y));
    assert(g1.tensors.len() == g0.tensors.len() + 4);
    assert(forall|i: int| 0 <= i < g0.tensors.len() ==> g1.tensors[i] == g0.tensors[i]);
    let value: Fixed = match graph.tensor(loss) {
        Some(t) => {
            let data = t.data();
            assert(raws(data@).len() == 1);
            assert(raws(data@)[0] == data@[0]@);
            data[0]
        },
        None => Fixed::zero(),
    };
    match graph.backward(loss) {
        Ok(_) => {},
        Err(e) => {
            return Err(e);
        },
    }
    let ghost g2 = graph@;
    proof {
        assert forall|i: int| 0 <= i < g0.tensors.len() implies (#[trigger] g2.tensors[i]).data.len()
            == g0.tensors[i].data.len() by {
            assert(g2.tensors[i].data == g1.tensors[i].data);
        }
        lemma_sized_not_blocked(o0, g0, g2, params@);
    }
    match optimizer.step(graph, &params) {
        Ok(_) => {},
        Err(e) => {
            return Err(e);
        },
    }
    let ghost g3 = graph@;
    optimizer.zero_grad(graph, &params);
    graph.reset(mark);
    proof {
        let o1 = optimizer@;
        let g5 = graph@;
        assert(g5.tensors.len() == g0.tensors.len());
        assert forall|i: int| 0 <= i < g0.tensors.len() implies {
            &&& (#[trigger] g5.tensors[i]).shape == g0.tensors[i].shape
            &&& g5.tensors[i].data.len() == g0.tensors[i].data.len()
        } by {
            assert(g2.tensors[i].shape == g1.tensors[i].shape);
            assert(g3.tensors[i].shape == g2.tensors[i].shape);
            assert(g3.tensors[i].data.len() == g2.tensors[i].data.len());
        }
        assert forall|k: int|
            0 <= k < params@.len() && o1.registered(#[trigger] params@[k]) && params@[k]
                < g5.tensors.len() implies o1.states[o1.slot(params@[k])].first_moment.len()
            == g5.tensors[params@[k] as int].data.len() by {
            lemma_same_layout(o0, g2, o1, g3, params@[k]);
            assert(o0.registered(params@[k]));
            assert(o1.states[o0.slot(params@[k])].first_moment.len() == o0.states[o0.slot(
                params@[k],
            )].first_moment.len());
        }
    }
    Ok(value)
}

/// The optimizer and the graph after `k` epochs.
pub open spec fn fit_state(
    opt: AdamView,
    g: GraphView,
    model: LinearRegression,
    x: usize,
    y: usize,
    k: nat,
) -> (AdamView, GraphView)
    decreases k,
{
    if k == 0 {
        (opt, g)
    } else {
        let (o, h) = fit_state(opt, g, model, x, y, (k - 1) as nat);
        epoch(o, h, model, x, y)
    }
}

/// The loss of epoch `k`, counted from zero.
pub open spec fn fit_loss(
    opt: AdamView,
    g: GraphView,
    model: LinearRegression,
    x: usize,
    y: usize,
    k: nat,
) -> int {
    epoch_loss(fit_state(opt, g, model, x, y, k).1, model, x, y)
}

/// Trains for `epochs` epochs on the inputs in tensor `x` and the targets
/// in tensor `y`, and returns the loss of every epoch, first epoch first.
/// Fails, and changes nothing, when there is an epoch to run and it cannot
/// run.
pub fn fit(
    model: &LinearRegression,
    graph: &mut Graph,
    optimizer: &mut Adam,
    x: usize,
    y: usize,
    epochs: usize,
) -> (r: Result<Vec<Fixed>, Error>)
    requires
        old(graph).wf(),
        old(optimizer).wf(),
    ensures
        final(graph).wf(),
        final(optimizer).wf(),
        match r {
            Ok(losses) => {
                &&& epochs == 0 || epoch_fits(old(optimizer)@, old(graph)@, *model, x, y)
                &&& losses.len() == epochs
                &&& (final(optimizer)@, final(graph)@) == fit_state(
                    old(optimizer)@,
                    old(graph)@,
                    *model,
                    x,
                    y,
                    epochs as nat,
                )
                &&& forall|k: int|
                    0 <= k < epochs ==> (#[trigger] losses@[k])@ == fit_loss(
                        old(optimizer)@,
                        old(graph)@,
                        *model,
                        x,
                        y,
                        k as nat,
                    )
            },
            Err(e) => {
                &&& e == Error::ShapeMismatch
                &&& epochs > 0
                &&& !epoch_fits(old(optimizer)@, old(graph)@, *model, x, y)
                &&& final(graph)@ == old(graph)@
                &&& final(optimizer)@ == old(optimizer)@
            },
        },
{
    let ghost g0 = graph@;
    let ghost o0 = optimizer@;
    let mut losses: Vec<Fixed> = Vec::new();
    let mut k: usize = 0;
    while k < epochs
        invariant
            k <= epochs,
            graph.wf(),
            optimizer.wf(),
            g0 == old(graph)@,
            o0 == old(optimizer)@,
            losses.len() == k,
            (optimizer@, graph@) == fit_state(o0, g0, *model, x, y, k as nat),
            k > 0 ==> epoch_fits(o0, g0, *model, x, y),
            k > 0 ==> epoch_fits(optimizer@, graph@, *model, x, y),
            forall|j: int|
                0 <= j < k ==> (#[trigger] losses@[j])@ == fit_loss(o0, g0, *model, x, y, j as nat),
        decreases epochs - k,
    {
        let ghost before = (optimizer@, graph@);
        assert(before == fit_state(o0, g0, *model, x, y, k as nat));
        assert(k == 0 ==> before == (o0, g0));
        match train_epoch(model, graph, optimizer, x, y) {
            Ok(loss) => {
                assert(loss@ == fit_loss(o0, g0, *model, x, y, k as nat));
                assert((optimizer@, graph@) == fit_state(o0, g0, *model, x, y, (k + 1) as nat));
                losses.push(loss);
            },
            Err(e) => {
                assert(k == 0);
                return Err(e);
            },
        }
        k = k + 1;
    }
    Ok(losses)
}

/// The model's predictions for `inputs`, one input per row, computed from
/// the parameters as they stand in the arena. The graph is left alone.
/// Fails when a parameter is missing or is not of one element in the
/// shape that the model gave it.
pub fn predict(model: &LinearRegression, graph: &Graph, inputs: Vec<Fixed>) -> (r: Result<
    Vec<Fixed>,
    Error,
>)
    requires
        graph.wf(),
    ensures
        match r {
            Ok(out) => {
                &&& predict_fits(graph@, *model, inputs.len())
                &&& raws(out@) == affine_data(
                    raws(inputs@),
                    graph@.tensors[model.weight as int].data,
                    graph@.tensors[model.bias as int].data,
                    inputs.len(),
                    1,
                    1,
                )
            },
            Err(e) => e == Error::ShapeMismatch && !predict_fits(graph@, *model, inputs.len()),
        },
{
    let weight: &Tensor = match graph.tensor(model.weight) {
        Some(t) => t,
        None => {
            return Err(Error::ShapeMismatch);
        },
    };
    let bias: &Tensor = match graph.tensor(model.bias) {
        Some(t) => t,
        None => {
            return Err(Error::ShapeMismatch);
        },
    };
    let rows: usize = inputs.len();
    let mut shape: Vec<usize> = Vec::new();
    shape.push(rows);
    shape.push(1);
    proof {
        assert(shape@ =~= seq![rows, 1usize]);
        crate::shape::lemma_shape_product_two(shape@);
        assert((rows as nat) * 1 == rows as nat) by (nonlinear_arith);
        assert(graph@.tensors[model.weight as int].wf());
        assert(graph@.tensors[model.bias as int].wf());
    }
    let x: Tensor = match Tensor::from_values(shape, inputs) {
        Ok(t) => t,
        Err(e) => {
            return Err(e);
        },
    };
    if weight.shape().len() != 2 || weight.shape()[0] != 1 || weight.shape()[1] != 1 {
        return Err(Error::ShapeMismatch);
    }
    assert(weight@.shape =~= seq![1usize, 1usize]);
    proof {
        if bias@.shape == seq![1usize] {
            assert(affine_fits(x@, weight@, bias@));
        }
        if affine_fits(x@, weight@, bias@) {
            assert(bias@.shape =~= seq![1usize]);
        }
    }
    match x.affine(weight, bias) {
        Ok(t) => Ok(t.into_data()),
        Err(e) => Err(e),
    }
}

/// Whether the model can predict for `rows` inputs: the arena holds its
/// weight as a one by one matrix and its bias as a vector of one entry.
pub open spec fn predict_fits(g: GraphView, model: LinearRegression, rows: usize) -> bool {
    &&& model.weight < g.tensors.len()
    &&& model.bias < g.tensors.len()
    &&& g.tensors[model.weight as int].shape == seq![1usize, 1usize]
    &&& g.tensors[model.bias as int].shape == seq![1usize]
}

} // verus!
