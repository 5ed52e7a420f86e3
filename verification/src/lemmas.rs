//! Facts about backward passes that hold of every graph.

use crate::fixed::{fx_diff, fx_prod, fx_quot, fx_whole, ONE_RAW};
use crate::graph::{cleared, seeded, unwind, with_gradient, GraphView, NodeView};
use crate::numeric::{seq_diff, seq_fill, seq_pow, seq_pow_grad, seq_sum};
use crate::tensor::TensorView;
use vstd::prelude::*;

verus! {

/// The gradient of the mean squared difference of `a` and `b` with respect
/// to `a`: twice the difference, times one over the number of elements.
pub open spec fn mse_gradient(a: Seq<int>, b: Seq<int>) -> Seq<int> {
    Seq::new(
        a.len(),
        |i: int|
            fx_prod(
                fx_prod(fx_whole(2), fx_diff(a[i], b[i])),
                fx_quot(ONE_RAW as int, fx_whole(a.len() as int)),
            ),
    )
}

/// A backward pass from `mean((a - b)^2)`, on a graph with an empty tape,
/// leaves in `a` the gradient `2 * (a - b) / count`, for two distinct
/// tensors of one shape of which `a` is tracked and has no gradient yet.
pub proof fn lemma_mse_gradient(g: GraphView, a: usize, b: usize)
    requires
        g.wf(),
        g.tensors.len() + 3 <= usize::MAX,
        g.tape.len() == 0,
        g.subtract_fits(a, b),
        a != b,
        g.tensors[a as int].requires_grad,
        g.tensors[a as int].grad.is_none(),
    ensures
        ({
            let g1 = g.subtract(a, b);
            let g2 = g1.power_scalar(g.next_id(), 2);
            let g3 = g2.mean(g1.next_id());
            let g4 = g3.backward(g2.next_id());
            &&& g3.backward_fits(g2.next_id())
            &&& g4.tensors[a as int].grad == Some(
                mse_gradient(g.tensors[a as int].data, g.tensors[b as int].data),
            )
            &&& g4.tensors[a as int].data == g.tensors[a as int].data
        }),
{
    let n = g.tensors.len() as int;
    let ta = g.tensors[a as int];
    let tb = g.tensors[b as int];
    let count = ta.data.len();
    let g1 = g.subtract(a, b);
    let d = g.next_id();
    let g2 = g1.power_scalar(d, 2);
    let s = g1.next_id();
    let g3 = g2.mean(s);
    let l = g2.next_id();
    assert(d == n && s == n + 1 && l == n + 2);
    let diff = seq_diff(ta.data, tb.data);
    let node_d = NodeView::Subtract { a, b, output: d };
    let node_s = NodeView::PowerScalar { x: d, output: s, exponent: 2, saved_x: diff };
    let node_l = NodeView::Mean { x: s, output: l };
    assert(g1.tensors[d as int].requires_grad);
    assert(g1.tape =~= seq![node_d]);
    assert(g2.tensors[d as int] == g1.tensors[d as int]);
    assert(g2.tensors[s as int].requires_grad);
    assert(g2.tape =~= seq![node_d, node_s]);
    assert(g3.tape =~= seq![node_d, node_s, node_l]);
    assert(g3.tensors.len() == n + 3);
    assert(g3.tensors[a as int] == ta);
    assert(g3.tensors[b as int] == tb);
    assert(g3.tensors[d as int] == TensorView::fresh(ta.shape, diff, true));
    assert(g3.tensors[s as int] == TensorView::fresh(ta.shape, seq_pow(diff, 2), true));
    assert(g3.tensors[l as int].shape =~= seq![1usize]);
    assert(g3.backward_fits(l));

    let t0 = seeded(g3.tensors, l as int);
    let share = fx_quot(ONE_RAW as int, fx_whole(count as int));
    let grad_s = seq_fill(count, share);
    let t1 = with_gradient(t0, s as int, grad_s);
    let grad_d = seq_pow_grad(diff, 2, grad_s);
    let t2 = with_gradient(t1, d as int, grad_d);
    let t3 = with_gradient(with_gradient(t2, a as int, grad_d), b as int, crate::numeric::seq_neg(grad_d));

    reveal_with_fuel(unwind, 4);
    assert(t0[l as int].grad == Some(seq![ONE_RAW as int]));
    assert(t0[s as int].data.len() == count);
    assert(crate::graph::node_backward(t0, node_l) == t1);
    assert(t1[s as int].grad == Some(grad_s));
    assert(crate::graph::node_backward(t1, node_s) == t2);
    assert(t2[d as int].grad == Some(grad_d));
    assert(crate::graph::node_backward(t2, node_d) == t3);
    assert(unwind(t0, g3.tape, 3) == t3);
    assert(t3[a as int].grad == Some(grad_d));
    assert(grad_d =~= mse_gradient(ta.data, tb.data));
}

/// Contributions add up: after two contributions `g1` and `g2` to a
/// tracked tensor without a gradient, its gradient is `g1 + g2`.
pub proof fn lemma_accumulation(tensors: Seq<TensorView>, id: int, g1: Seq<int>, g2: Seq<int>)
    requires
        0 <= id < tensors.len(),
        tensors[id].requires_grad,
        tensors[id].grad.is_none(),
    ensures
        with_gradient(with_gradient(tensors, id, g1), id, g2)[id].grad == Some(seq_sum(g1, g2)),
{
}

/// Contributions add to what is there: a contribution `g` to a tracked
/// tensor whose gradient is `held` leaves the gradient `held + g`.
pub proof fn lemma_accumulation_onto(tensors: Seq<TensorView>, id: int, held: Seq<int>, g: Seq<int>)
    requires
        0 <= id < tensors.len(),
        tensors[id].requires_grad,
        tensors[id].grad == Some(held),
    ensures
        with_gradient(tensors, id, g)[id].grad == Some(seq_sum(held, g)),
{
}

/// Dropping gradients twice is dropping them once, and afterwards none of
/// the named tensors has a gradient.
pub proof fn lemma_zero_grad_idempotent(g: GraphView, ids: Seq<usize>)
    ensures
        g.zero_grad(ids).zero_grad(ids) == g.zero_grad(ids),
        forall|k: int|
            0 <= k < ids.len() && ids[k] < g.tensors.len() ==> (#[trigger] g.zero_grad(
                ids,
            ).tensors[ids[k] as int]).grad.is_none(),
        forall|k: int|
            0 <= k < ids.len() && ids[k] < g.tensors.len() ==> (#[trigger] g.zero_grad(
                ids,
            ).zero_grad(ids).tensors[ids[k] as int]).grad.is_none(),
{
    let once = cleared(g.tensors, ids);
    let twice = cleared(once, ids);
    assert(twice =~= once);
    assert forall|k: int| 0 <= k < ids.len() && ids[k] < g.tensors.len() implies (
    #[trigger] once[ids[k] as int]).grad.is_none() by {
        assert(ids.contains(ids[k]));
    }
}

} // verus!
