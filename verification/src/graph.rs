//! The arena of tensors and the tape of operations recorded on them.
//!
//! Tensors live in the arena and are named by their position in it. Every
//! differentiable operation reads its operands from the arena, appends its
//! result, and, when a gradient is tracked for the result, appends a node to
//! the tape. A backward pass walks the tape from its newest node to its
//! oldest and adds each node's contributions to the gradients of its
//! operands.

use crate::error::Error;
use crate::fixed::{fx_quot, fx_whole, Fixed, ONE_RAW};
use crate::numeric;
use crate::numeric::{
    column_totals, grid_dot, raws, seq_diff, seq_fill, seq_neg, seq_pow, seq_pow_grad, Walk,
};
use crate::shape::{
    is_scalar, is_scalar_shape, lemma_scalar_shape_product, lemma_shape_product_one,
    lemma_shape_product_two,
};
use crate::tensor::{affine_fits, affine_value, mean_value, Tensor, TensorView};
use vstd::prelude::*;

verus! {

/// What a recorded operation is: which tensors it read, which it wrote,
/// and the values of its operands that its backward rule needs.
pub enum NodeView {
    /// `output = x * weight + bias` for a `rows` by `inner` matrix `x` and
    /// an `inner` by `cols` matrix `weight`.
    Affine {
        x: usize,
        weight: usize,
        bias: usize,
        output: usize,
        rows: usize,
        inner: usize,
        cols: usize,
        saved_x: Seq<int>,
        saved_weight: Seq<int>,
    },
    /// `output = a - b`, element by element.
    Subtract { a: usize, b: usize, output: usize },
    /// `output = x` raised to `exponent`, element by element.
    PowerScalar { x: usize, output: usize, exponent: u32, saved_x: Seq<int> },
    /// `output = mean(x)`.
    Mean { x: usize, output: usize },
}

impl NodeView {
    /// The tensor that the operation wrote.
    pub open spec fn output(self) -> usize {
        match self {
            NodeView::Affine { output, .. } => output,
            NodeView::Subtract { output, .. } => output,
            NodeView::PowerScalar { output, .. } => output,
            NodeView::Mean { output, .. } => output,
        }
    }

    /// Whether the operation read tensor `id`.
    pub open spec fn reads(self, id: usize) -> bool {
        match self {
            NodeView::Affine { x, weight, bias, .. } => id == x || id == weight || id == bias,
            NodeView::Subtract { a, b, .. } => id == a || id == b,
            NodeView::PowerScalar { x, .. } => id == x,
            NodeView::Mean { x, .. } => id == x,
        }
    }
}

/// A recorded operation.
pub enum Node {
    /// `output = x * weight + bias`.
    Affine {
        x: usize,
        weight: usize,
        bias: usize,
        output: usize,
        rows: usize,
        inner: usize,
        cols: usize,
        saved_x: Vec<Fixed>,
        saved_weight: Vec<Fixed>,
    },
    /// `output = a - b`.
    Subtract { a: usize, b: usize, output: usize },
    /// `output = x` raised to `exponent`.
    PowerScalar { x: usize, output: usize, exponent: u32, saved_x: Vec<Fixed> },
    /// `output = mean(x)`.
    Mean { x: usize, output: usize },
}

impl View for Node {
    type V = NodeView;

    open spec fn view(&self) -> NodeView {
        match *self {
            Node::Affine { x, weight, bias, output, rows, inner, cols, saved_x, saved_weight } => {
                NodeView::Affine {
                    x,
                    weight,
                    bias,
                    output,
                    rows,
                    inner,
                    cols,
                    saved_x: raws(saved_x@),
                    saved_weight: raws(saved_weight@),
                }
            },
            Node::Subtract { a, b, output } => NodeView::Subtract { a, b, output },
            Node::PowerScalar { x, output, exponent, saved_x } => NodeView::PowerScalar {
                x,
                output,
                exponent,
                saved_x: raws(saved_x@),
            },
            Node::Mean { x, output } => NodeView::Mean { x, output },
        }
    }
}

/// The node names tensors of the arena, its operands are older than its
/// result, and their sizes are those that the operation had when it ran.
pub open spec fn node_wf(node: NodeView, tensors: Seq<TensorView>) -> bool {
    match node {
        NodeView::Affine { x, weight, bias, output, rows, inner, cols, saved_x, saved_weight } => {
            &&& x < output
            &&& weight < output
            &&& bias < output
            &&& output < tensors.len()
            &&& saved_x.len() == rows * inner
            &&& saved_weight.len() == inner * cols
            &&& tensors[x as int].data.len() == rows * inner
            &&& tensors[weight as int].data.len() == inner * cols
            &&& tensors[bias as int].data.len() == cols
            &&& tensors[output as int].data.len() == rows * cols
        },
        NodeView::Subtract { a, b, output } => {
            &&& a < output
            &&& b < output
            &&& output < tensors.len()
            &&& tensors[a as int].data.len() == tensors[output as int].data.len()
            &&& tensors[b as int].data.len() == tensors[output as int].data.len()
        },
        NodeView::PowerScalar { x, output, exponent, saved_x } => {
            &&& x < output
            &&& output < tensors.len()
            &&& tensors[x as int].data.len() == tensors[output as int].data.len()
            &&& saved_x.len() == tensors[output as int].data.len()
        },
        NodeView::Mean { x, output } => {
            &&& x < output
            &&& output < tensors.len()
            &&& tensors[output as int].data.len() == 1
        },
    }
}

/// Every tensor's buffers fit its shape.
pub open spec fn tensors_wf(tensors: Seq<TensorView>) -> bool {
    forall|i: int| 0 <= i < tensors.len() ==> (#[trigger] tensors[i]).wf()
}

/// Every node of the tape fits the arena.
pub open spec fn tape_wf(tape: Seq<NodeView>, tensors: Seq<TensorView>) -> bool {
    forall|k: int| 0 <= k < tape.len() ==> node_wf(#[trigger] tape[k], tensors)
}

/// The results of the recorded operations come in the order in which the
/// operations ran: a newer node wrote a newer tensor.
pub open spec fn tape_ordered(tape: Seq<NodeView>) -> bool {
    forall|i: int, j: int|
        0 <= i < j < tape.len() ==> (#[trigger] tape[i]).output() < (#[trigger] tape[j]).output()
}

/// No recorded operation read the result of an operation at or after its
/// own place on the tape. So when a backward pass, which runs newest first,
/// reaches the operation that made a tensor, every operation that read the
/// tensor has already contributed to its gradient.
pub proof fn lemma_tape_is_topological(g: GraphView, i: int, j: int)
    requires
        g.wf(),
        0 <= i <= j < g.tape.len(),
    ensures
        !g.tape[i].reads(g.tape[j].output()),
{
    assert(node_wf(g.tape[i], g.tensors));
    if i < j {
        assert(g.tape[i].output() < g.tape[j].output());
    }
}

/// `after` holds the tensors of `before` with the same shapes, values and
/// tracking; only gradients may differ.
pub open spec fn same_values(before: Seq<TensorView>, after: Seq<TensorView>) -> bool {
    &&& before.len() == after.len()
    &&& forall|i: int|
        0 <= i < before.len() ==> {
            &&& (#[trigger] after[i]).shape == before[i].shape
            &&& after[i].data == before[i].data
            &&& after[i].requires_grad == before[i].requires_grad
        }
}

/// `after` holds at least the tensors of `before`, each with as many values
/// as before.
pub open spec fn same_sizes(before: Seq<TensorView>, after: Seq<TensorView>) -> bool {
    &&& before.len() <= after.len()
    &&& forall|i: int|
        0 <= i < before.len() ==> (#[trigger] after[i]).data.len() == before[i].data.len()
}

/// A tape that fits an arena fits every arena that keeps the sizes.
pub proof fn lemma_tape_wf_frame(
    tape: Seq<NodeView>,
    before: Seq<TensorView>,
    after: Seq<TensorView>,
)
    requires
        tape_wf(tape, before),
        same_sizes(before, after),
    ensures
        tape_wf(tape, after),
{
    assert forall|k: int| 0 <= k < tape.len() implies node_wf(#[trigger] tape[k], after) by {
        assert(node_wf(tape[k], before));
    }
}

/// The tensors with `g` added to the gradient of tensor `id`, when a
/// gradient is tracked for it.
pub open spec fn with_gradient(tensors: Seq<TensorView>, id: int, g: Seq<int>) -> Seq<TensorView> {
    if tensors[id].requires_grad {
        tensors.update(id, tensors[id].accumulate(g))
    } else {
        tensors
    }
}

/// The gradient of `x * weight + bias` with respect to `x`: the gradient
/// `g` of the result times the transposed weight.
pub open spec fn affine_grad_x(g: Seq<int>, weight: Seq<int>, n: usize, k: usize, m: usize) -> Seq<
    int,
> {
    grid_dot(g, Walk::row_of_row(m), weight, Walk::row_of_column(m), n as nat, k as nat, m as nat)
}

/// The gradient of `x * weight + bias` with respect to `weight`: the
/// transposed `x` times the gradient `g` of the result.
pub open spec fn affine_grad_weight(x: Seq<int>, g: Seq<int>, n: usize, k: usize, m: usize) -> Seq<
    int,
> {
    grid_dot(x, Walk::column_of_row(k), g, Walk::column_of_column(m), k as nat, m as nat, n as nat)
}

/// The gradient of `x * weight + bias` with respect to `bias`: the gradient
/// `g` of the result added up over its rows.
pub open spec fn affine_grad_bias(g: Seq<int>, n: usize, m: usize) -> Seq<int> {
    column_totals(g, n as nat, m as nat)
}

/// The gradient of `mean(x)` with respect to `x`, for `count` elements:
/// the gradient `g` of the result divided by `count`, once per element.
pub open spec fn mean_grad(g: Seq<int>, count: nat) -> Seq<int> {
    seq_fill(count, fx_quot(g[0], fx_whole(count as int)))
}

/// The tensors after the backward rule of `node` ran: when its result has a
/// gradient, each operand received its contribution; otherwise nothing
/// changed.
pub open spec fn node_backward(tensors: Seq<TensorView>, node: NodeView) -> Seq<TensorView> {
    match node {
        NodeView::Affine { x, weight, bias, output, rows, inner, cols, saved_x, saved_weight } => {
            match tensors[output as int].grad {
                Some(g) => {
                    let t1 = with_gradient(
                        tensors,
                        x as int,
                        affine_grad_x(g, saved_weight, rows, inner, cols),
                    );
                    let t2 = with_gradient(
                        t1,
                        weight as int,
                        affine_grad_weight(saved_x, g, rows, inner, cols),
                    );
                    with_gradient(t2, bias as int, affine_grad_bias(g, rows, cols))
                },
                None => tensors,
            }
        },
        NodeView::Subtract { a, b, output } => {
            match tensors[output as int].grad {
                Some(g) => {
                    let t1 = with_gradient(tensors, a as int, g);
                    with_gradient(t1, b as int, seq_neg(g))
                },
                None => tensors,
            }
        },
        NodeView::PowerScalar { x, output, exponent, saved_x } => {
            match tensors[output as int].grad {
                Some(g) => with_gradient(
                    tensors,
                    x as int,
                    seq_pow_grad(saved_x, exponent as nat, g),
                ),
                None => tensors,
            }
        },
        NodeView::Mean { x, output } => {
            match tensors[output as int].grad {
                Some(g) => with_gradient(
                    tensors,
                    x as int,
                    mean_grad(g, tensors[x as int].data.len()),
                ),
                None => tensors,
            }
        },
    }
}

/// The tensors after the backward rules of the `k` oldest nodes of the tape
/// ran, newest first.
pub open spec fn unwind(tensors: Seq<TensorView>, tape: Seq<NodeView>, k: nat) -> Seq<TensorView>
    decreases k,
{
    if k == 0 {
        tensors
    } else {
        unwind(node_backward(tensors, tape[k - 1]), tape, (k - 1) as nat)
    }
}

/// The tensors with the gradient of tensor `loss` set to one.
pub open spec fn seeded(tensors: Seq<TensorView>, loss: int) -> Seq<TensorView> {
    tensors.update(loss, TensorView { grad: Some(seq![ONE_RAW as int]), ..tensors[loss] })
}

/// The tensors with the gradients of those named in `ids` dropped.
pub open spec fn cleared(tensors: Seq<TensorView>, ids: Seq<usize>) -> Seq<TensorView> {
    Seq::new(
        tensors.len(),
        |i: int|
            if ids.contains(i as usize) {
                tensors[i].cleared()
            } else {
                tensors[i]
            },
    )
}

/// What a graph is: its tensors by identifier, and the recorded operations
/// in the order in which they ran.
pub struct GraphView {
    pub tensors: Seq<TensorView>,
    pub tape: Seq<NodeView>,
}

impl GraphView {
    /// Every tensor's buffers fit its shape, every node fits the arena, and
    /// the tape is in the order in which the operations ran.
    pub open spec fn wf(self) -> bool {
        &&& tensors_wf(self.tensors)
        &&& tape_wf(self.tape, self.tensors)
        &&& tape_ordered(self.tape)
    }

    /// The identifier that the next tensor gets.
    pub open spec fn next_id(self) -> usize {
        self.tensors.len() as usize
    }

    /// This graph with one more tensor.
    pub open spec fn insert(self, t: TensorView) -> GraphView {
        GraphView { tensors: self.tensors.push(t), tape: self.tape }
    }

    /// This graph with the result `out` of an operation, and with `node` on
    /// the tape when a gradient is tracked for the result.
    pub open spec fn produce(self, out: TensorView, node: NodeView) -> GraphView {
        GraphView {
            tensors: self.tensors.push(out),
            tape: if out.requires_grad {
                self.tape.push(node)
            } else {
                self.tape
            },
        }
    }

    /// Whether `x * weight + bias` can be formed.
    pub open spec fn affine_fits(self, x: usize, weight: usize, bias: usize) -> bool {
        &&& x < self.tensors.len()
        &&& weight < self.tensors.len()
        &&& bias < self.tensors.len()
        &&& affine_fits(self.tensors[x as int], self.tensors[weight as int], self.tensors[bias as int])
    }

    /// This graph after `x * weight + bias`.
    pub open spec fn affine(self, x: usize, weight: usize, bias: usize) -> GraphView {
        let tx = self.tensors[x as int];
        let tw = self.tensors[weight as int];
        let tb = self.tensors[bias as int];
        self.produce(
            affine_value(tx, tw, tb),
            NodeView::Affine {
                x,
                weight,
                bias,
                output: self.next_id(),
                rows: tx.shape[0],
                inner: tx.shape[1],
                cols: tw.shape[1],
                saved_x: tx.data,
                saved_weight: tw.data,
            },
        )
    }

    /// Whether `a - b` can be formed.
    pub open spec fn subtract_fits(self, a: usize, b: usize) -> bool {
        &&& a < self.tensors.len()
        &&& b < self.tensors.len()
        &&& self.tensors[a as int].shape == self.tensors[b as int].shape
    }

    /// This graph after `a - b`.
    pub open spec fn subtract(self, a: usize, b: usize) -> GraphView {
        let ta = self.tensors[a as int];
        let tb = self.tensors[b as int];
        self.produce(
            TensorView::fresh(
                ta.shape,
                seq_diff(ta.data, tb.data),
                ta.requires_grad || tb.requires_grad,
            ),
            NodeView::Subtract { a, b, output: self.next_id() },
        )
    }

    /// This graph after `x` was raised to the power `p`.
    pub open spec fn power_scalar(self, x: usize, p: u32) -> GraphView {
        let tx = self.tensors[x as int];
        self.produce(
            TensorView::fresh(tx.shape, seq_pow(tx.data, p as nat), tx.requires_grad),
            NodeView::PowerScalar { x, output: self.next_id(), exponent: p, saved_x: tx.data },
        )
    }

    /// This graph after `mean(x)`.
    pub open spec fn mean(self, x: usize) -> GraphView {
        self.produce(
            mean_value(self.tensors[x as int]),
            NodeView::Mean { x, output: self.next_id() },
        )
    }

    /// Whether a backward pass can start at `loss`: it names a scalar.
    pub open spec fn backward_fits(self, loss: usize) -> bool {
        loss < self.tensors.len() && is_scalar_shape(self.tensors[loss as int].shape)
    }

    /// This graph after a backward pass from `loss`: the gradient of `loss`
    /// is one, every node has run its backward rule, newest first, and the
    /// tape is empty.
    pub open spec fn backward(self, loss: usize) -> GraphView {
        GraphView {
            tensors: unwind(seeded(self.tensors, loss as int), self.tape, self.tape.len()),
            tape: Seq::empty(),
        }
    }

    /// This graph with the gradients of the tensors named in `ids` dropped.
    pub open spec fn zero_grad(self, ids: Seq<usize>) -> GraphView {
        GraphView { tensors: cleared(self.tensors, ids), tape: self.tape }
    }

    /// This graph cut back to its first `keep` tensors, with an empty tape.
    pub open spec fn reset(self, keep: usize) -> GraphView {
        GraphView {
            tensors: if keep < self.tensors.len() {
                self.tensors.take(keep as int)
            } else {
                self.tensors
            },
            tape: Seq::empty(),
        }
    }
}

/// What a list of tensors is.
pub open spec fn tensor_views(tensors: Seq<Tensor>) -> Seq<TensorView> {
    Seq::new(tensors.len(), |i: int| tensors[i]@)
}

/// What a list of nodes is.
pub open spec fn node_views(tape: Seq<Node>) -> Seq<NodeView> {
    Seq::new(tape.len(), |k: int| tape[k]@)
}

/// The index facts that the three gradients of an affine map rest on.
proof fn lemma_affine_walks(n: usize, k: usize, m: usize)
    ensures
        Walk::row_of_row(m).fits((n * m) as nat, n as nat, k as nat, m as nat),
        Walk::row_of_column(m).fits((k * m) as nat, n as nat, k as nat, m as nat),
        Walk::column_of_row(k).fits((n * k) as nat, k as nat, m as nat, n as nat),
        Walk::column_of_column(m).fits((n * m) as nat, k as nat, m as nat, n as nat),
{
    if n > 0 && k > 0 && m > 0 {
        assert((n - 1) * m + (k - 1) * 0 + (m - 1) * 1 < n * m) by (nonlinear_arith)
            requires
                n > 0,
                m > 0,
        ;
        assert((n - 1) * 0 + (k - 1) * m + (m - 1) * 1 < k * m) by (nonlinear_arith)
            requires
                k > 0,
                m > 0,
        ;
        assert((k - 1) * 1 + (m - 1) * 0 + (n - 1) * k < n * k) by (nonlinear_arith)
            requires
                n > 0,
                k > 0,
        ;
        assert((k - 1) * 0 + (m - 1) * 1 + (n - 1) * m < n * m) by (nonlinear_arith)
            requires
                n > 0,
                m > 0,
        ;
    }
}

/// Adds `g` to the gradient of tensor `id`, when a gradient is tracked for
/// it.
fn accumulate_at(tensors: &mut Vec<Tensor>, id: usize, g: &Vec<Fixed>)
    requires
        tensors_wf(tensor_views(old(tensors)@)),
        id < old(tensors).len(),
        g.len() == tensor_views(old(tensors)@)[id as int].data.len(),
    ensures
        tensors_wf(tensor_views(final(tensors)@)),
        same_sizes(tensor_views(old(tensors)@), tensor_views(final(tensors)@)),
        same_values(tensor_views(old(tensors)@), tensor_views(final(tensors)@)),
        final(tensors).len() == old(tensors).len(),
        tensor_views(final(tensors)@) == with_gradient(
            tensor_views(old(tensors)@),
            id as int,
            raws(g@),
        ),
{
    let ghost before = tensor_views(tensors@);
    assert(before[id as int].wf());
    if tensors[id].requires_grad() {
        let _ = tensors[id].accumulate_grad(g);
        assert(tensor_views(tensors@) =~= with_gradient(before, id as int, raws(g@)));
    }
    assert forall|i: int| 0 <= i < tensors.len() implies (#[trigger] tensor_views(
        tensors@,
    )[i]).wf() by {
        assert(before[i].wf());
    }
}

/// Runs the backward rule of `node`.
fn apply_node(tensors: &mut Vec<Tensor>, node: &Node)
    requires
        tensors_wf(tensor_views(old(tensors)@)),
        node_wf(node@, tensor_views(old(tensors)@)),
    ensures
        tensors_wf(tensor_views(final(tensors)@)),
        same_sizes(tensor_views(old(tensors)@), tensor_views(final(tensors)@)),
        same_values(tensor_views(old(tensors)@), tensor_views(final(tensors)@)),
        final(tensors).len() == old(tensors).len(),
        tensor_views(final(tensors)@) == node_backward(tensor_views(old(tensors)@), node@),
{
    let ghost before = tensor_views(tensors@);
    match node {
        Node::Affine { x, weight, bias, output, rows, inner, cols, saved_x, saved_weight } => {
            assert(before[*output as int].wf());
            let g: Vec<Fixed> = match tensors[*output].grad() {
                Some(held) => numeric::copy(held),
                None => {
                    return ;
                },
            };
            let x_len: usize = tensors[*x].len();
            let weight_len: usize = tensors[*weight].len();
            proof {
                lemma_affine_walks(*rows, *inner, *cols);
                assert(raws(g@).len() == g.len());
                assert(before[*x as int].data.len() == x_len);
                assert(before[*weight as int].data.len() == weight_len);
            }
            if tensors[*x].requires_grad() {
                let gx = numeric::grid(
                    &g,
                    Walk { row: *cols, col: 0, step: 1 },
                    saved_weight,
                    Walk { row: 0, col: *cols, step: 1 },
                    *rows,
                    *inner,
                    *cols,
                );
                assert(raws(gx@).len() == gx.len());
                accumulate_at(tensors, *x, &gx);
            }
            assert(tensor_views(tensors@)[*weight as int].data.len() == before[*weight as int].data.len());
            if tensors[*weight].requires_grad() {
                let gw = numeric::grid(
                    saved_x,
                    Walk { row: 1, col: 0, step: *inner },
                    &g,
                    Walk { row: 0, col: 1, step: *cols },
                    *inner,
                    *cols,
                    *rows,
                );
                assert(raws(gw@).len() == gw.len());
                accumulate_at(tensors, *weight, &gw);
            }
            assert(tensor_views(tensors@)[*bias as int].data.len() == before[*bias as int].data.len());
            if tensors[*bias].requires_grad() {
                let gb = numeric::totals_by_column(&g, *rows, *cols);
                assert(raws(gb@).len() == gb.len());
                accumulate_at(tensors, *bias, &gb);
            }
        },
        Node::Subtract { a, b, output } => {
            assert(before[*output as int].wf());
            let g: Vec<Fixed> = match tensors[*output].grad() {
                Some(held) => numeric::copy(held),
                None => {
                    return ;
                },
            };
            assert(raws(g@).len() == g.len());
            accumulate_at(tensors, *a, &g);
            let negated = numeric::negate(&g);
            assert(raws(negated@).len() == negated.len());
            assert(tensor_views(tensors@)[*b as int].data.len() == before[*b as int].data.len());
            accumulate_at(tensors, *b, &negated);
        },
        Node::PowerScalar { x, output, exponent, saved_x } => {
            assert(before[*output as int].wf());
            let g: Vec<Fixed> = match tensors[*output].grad() {
                Some(held) => numeric::copy(held),
                None => {
                    return ;
                },
            };
            assert(raws(g@).len() == g.len());
            assert(raws(saved_x@).len() == saved_x.len());
            let gx = numeric::power_grad(saved_x, *exponent, &g);
            assert(raws(gx@).len() == gx.len());
            accumulate_at(tensors, *x, &gx);
        },
        Node::Mean { x, output } => {
            assert(before[*output as int].wf());
            let share: Fixed = match tensors[*output].grad() {
                Some(held) => held[0],
                None => {
                    return ;
                },
            };
            let count: usize = tensors[*x].len();
            let gx = numeric::fill(count, share.over(Fixed::from_count(count)));
            assert(raws(gx@).len() == gx.len());
            accumulate_at(tensors, *x, &gx);
        },
    }
}

/// Tensors held by identifier, and the operations recorded on them.
pub struct Graph {
    tensors: Vec<Tensor>,
    tape: Vec<Node>,
}

impl View for Graph {
    type V = GraphView;

    closed spec fn view(&self) -> GraphView {
        GraphView { tensors: tensor_views(self.tensors@), tape: node_views(self.tape@) }
    }
}

impl Graph {
    /// Every tensor's buffers fit its shape, and every node fits the arena.
    pub open spec fn wf(&self) -> bool {
        self@.wf()
    }

    /// A graph without tensors and with an empty tape.
    pub fn new() -> (g: Graph)
        ensures
            g.wf(),
            g@.tensors.len() == 0,
            g@.tape.len() == 0,
    {
        Graph { tensors: Vec::new(), tape: Vec::new() }
    }

    /// The number of tensors in the arena.
    pub fn len(&self) -> (n: usize)
        ensures
            n == self@.tensors.len(),
    {
        self.tensors.len()
    }

    /// The number of nodes on the tape.
    pub fn tape_len(&self) -> (n: usize)
        ensures
            n == self@.tape.len(),
    {
        self.tape.len()
    }

    /// The tensor with the given identifier, if the arena holds one.
    pub fn tensor(&self, id: usize) -> (r: Option<&Tensor>)
        ensures
            match r {
                Some(t) => id < self@.tensors.len() && t@ == self@.tensors[id as int],
                None => id >= self@.tensors.len(),
            },
    {
        if id < self.tensors.len() {
            Some(&self.tensors[id])
        } else {
            None
        }
    }

    /// Puts a tensor into the arena and returns its identifier.
    pub fn insert(&mut self, t: Tensor) -> (id: usize)
        requires
            old(self).wf(),
            t.wf(),
        ensures
            final(self).wf(),
            id == old(self)@.tensors.len(),
            final(self)@ == old(self)@.insert(t@),
    {
        let id: usize = self.tensors.len();
        self.tensors.push(t);
        proof {
            assert(self@.tensors =~= old(self)@.tensors.push(t@));
            assert(self@.tape =~= old(self)@.tape);
            lemma_tape_wf_frame(self@.tape, old(self)@.tensors, self@.tensors);
        }
        id
    }

    /// Appends a node to the tape.
    fn record(&mut self, node: Node)
        requires
            old(self).wf(),
            node_wf(node@, old(self)@.tensors),
            forall|k: int|
                0 <= k < old(self)@.tape.len() ==> (#[trigger] old(self)@.tape[k]).output()
                    < node@.output(),
        ensures
            final(self).wf(),
            final(self)@.tensors == old(self)@.tensors,
            final(self)@.tape == old(self)@.tape.push(node@),
    {
        self.tape.push(node);
        assert(self@.tape =~= old(self)@.tape.push(node@));
        assert(self@.tensors =~= old(self)@.tensors);
    }

    /// Puts the result of an operation into the arena, and its node on the
    /// tape when a gradient is tracked for the result.
    fn produce(&mut self, out: Tensor, node: Node) -> (id: usize)
        requires
            old(self).wf(),
            out.wf(),
            node_wf(node@, old(self)@.tensors.push(out@)),
            node@.output() == old(self)@.tensors.len(),
        ensures
            final(self).wf(),
            id == old(self)@.tensors.len(),
            final(self)@ == old(self)@.produce(out@, node@),
    {
        let tracked_result: bool = out.requires_grad();
        assert forall|k: int| 0 <= k < self@.tape.len() implies (#[trigger] self@.tape[k]).output()
            < node@.output() by {
            assert(node_wf(self@.tape[k], self@.tensors));
        }
        let id: usize = self.insert(out);
        if tracked_result {
            self.record(node);
        }
        id
    }

    /// Whether `x * weight + bias` can be formed from three tensors of the
    /// arena.
    pub fn affine_fits(&self, x: usize, weight: usize, bias: usize) -> (r: bool)
        ensures
            r == self@.affine_fits(x, weight, bias),
    {
        let n: usize = self.tensors.len();
        if x >= n || weight >= n || bias >= n {
            return false;
        }
        self.tensors[x].affine_fits(&self.tensors[weight], &self.tensors[bias])
    }

    /// The affine map `x * weight + bias` of three tensors of the arena.
    /// The result is appended to the arena and its identifier returned; the
    /// operation is recorded when a gradient is tracked for an operand.
    /// Fails, and changes nothing, when an operand is missing or the shapes
    /// do not fit.
    pub fn affine(&mut self, x: usize, weight: usize, bias: usize) -> (r: Result<usize, Error>)
        requires
            old(self).wf(),
        ensures
            final(self).wf(),
            match r {
                Ok(id) => {
                    &&& old(self)@.affine_fits(x, weight, bias)
                    &&& id == old(self)@.tensors.len()
                    &&& final(self)@ == old(self)@.affine(x, weight, bias)
                },
                Err(e) => {
                    &&& e == Error::ShapeMismatch
                    &&& !old(self)@.affine_fits(x, weight, bias)
                    &&& final(self)@ == old(self)@
                },
            },
    {
        let n: usize = self.tensors.len();
        if x >= n || weight >= n || bias >= n {
            return Err(Error::ShapeMismatch);
        }
        assert(self@.tensors[x as int].wf());
        assert(self@.tensors[weight as int].wf());
        assert(self@.tensors[bias as int].wf());
        let out: Tensor = match self.tensors[x].affine(&self.tensors[weight], &self.tensors[bias]) {
            Ok(t) => t,
            Err(e) => {
                return Err(e);
            },
        };
        let rows: usize = self.tensors[x].shape()[0];
        let inner: usize = self.tensors[x].shape()[1];
        let cols: usize = self.tensors[weight].shape()[1];
        let saved_x = numeric::copy(self.tensors[x].data());
        let saved_weight = numeric::copy(self.tensors[weight].data());
        let node = Node::Affine {
            x,
            weight,
            bias,
            output: n,
            rows,
            inner,
            cols,
            saved_x,
            saved_weight,
        };
        proof {
            lemma_shape_product_two(self@.tensors[x as int].shape);
            lemma_shape_product_two(self@.tensors[weight as int].shape);
            lemma_shape_product_one(self@.tensors[bias as int].shape);
            lemma_shape_product_two(out@.shape);
        }
        Ok(self.produce(out, node))
    }

    /// The elementwise difference `a - b` of two tensors of the arena.
    /// The result is appended to the arena and its identifier returned; the
    /// operation is recorded when a gradient is tracked for an operand.
    /// Fails, and changes nothing, when an operand is missing or the shapes
    /// differ.
    pub fn subtract(&mut self, a: usize, b: usize) -> (r: Result<usize, Error>)
        requires
            old(self).wf(),
        ensures
            final(self).wf(),
            match r {
                Ok(id) => {
                    &&& old(self)@.subtract_fits(a, b)
                    &&& id == old(self)@.tensors.len()
                    &&& final(self)@ == old(self)@.subtract(a, b)
                },
                Err(e) => {
                    &&& e == Error::ShapeMismatch
                    &&& !old(self)@.subtract_fits(a, b)
                    &&& final(self)@ == old(self)@
                },
            },
    {
        let n: usize = self.tensors.len();
        if a >= n || b >= n {
            return Err(Error::ShapeMismatch);
        }
        assert(self@.tensors[a as int].wf());
        assert(self@.tensors[b as int].wf());
        let out: Tensor = match self.tensors[a].subtract(&self.tensors[b]) {
            Ok(t) => t,
            Err(e) => {
                return Err(e);
            },
        };
        let node = Node::Subtract { a, b, output: n };
        Ok(self.produce(out, node))
    }

    /// Every value of tensor `x` raised to the power `p`. The result is
    /// appended to the arena and its identifier returned; the operation is
    /// recorded when a gradient is tracked for `x`. Fails, and changes
    /// nothing, when the arena holds no tensor `x`.
    pub fn power_scalar(&mut self, x: usize, p: u32) -> (r: Result<usize, Error>)
        requires
            old(self).wf(),
        ensures
            final(self).wf(),
            match r {
                Ok(id) => {
                    &&& x < old(self)@.tensors.len()
                    &&& id == old(self)@.tensors.len()
                    &&& final(self)@ == old(self)@.power_scalar(x, p)
                },
                Err(e) => {
                    &&& e == Error::ShapeMismatch
                    &&& x >= old(self)@.tensors.len()
                    &&& final(self)@ == old(self)@
                },
            },
    {
        let n: usize = self.tensors.len();
        if x >= n {
            return Err(Error::ShapeMismatch);
        }
        assert(self@.tensors[x as int].wf());
        let out: Tensor = self.tensors[x].power_scalar(p);
        let saved_x = numeric::copy(self.tensors[x].data());
        let node = Node::PowerScalar { x, output: n, exponent: p, saved_x };
        Ok(self.produce(out, node))
    }

    /// The mean of all values of tensor `x`, as a tensor of shape `[1]`.
    /// The result is appended to the arena and its identifier returned; the
    /// operation is recorded when a gradient is tracked for `x`. Fails, and
    /// changes nothing, when the arena holds no tensor `x`.
    pub fn mean(&mut self, x: usize) -> (r: Result<usize, Error>)
        requires
            old(self).wf(),
        ensures
            final(self).wf(),
            match r {
                Ok(id) => {
                    &&& x < old(self)@.tensors.len()
                    &&& id == old(self)@.tensors.len()
                    &&& final(self)@ == old(self)@.mean(x)
                },
                Err(e) => {
                    &&& e == Error::ShapeMismatch
                    &&& x >= old(self)@.tensors.len()
                    &&& final(self)@ == old(self)@
                },
            },
    {
        let n: usize = self.tensors.len();
        if x >= n {
            return Err(Error::ShapeMismatch);
        }
        let out: Tensor = self.tensors[x].mean();
        let node = Node::Mean { x, output: n };
        Ok(self.produce(out, node))
    }

    /// Runs a backward pass from the scalar tensor `loss`: its gradient
    /// becomes one, every recorded operation adds its contributions to the
    /// gradients of its operands, newest operation first, and the tape is
    /// emptied. Fails, and changes nothing, when `loss` does not name a
    /// tensor of shape `[1]` or `[]`.
    pub fn backward(&mut self, loss: usize) -> (r: Result<(), Error>)
        requires
            old(self).wf(),
        ensures
            final(self).wf(),
            match r {
                Ok(_) => {
                    &&& old(self)@.backward_fits(loss)
                    &&& final(self)@ == old(self)@.backward(loss)
                    &&& same_values(old(self)@.tensors, final(self)@.tensors)
                },
                Err(e) => {
                    &&& e == Error::NonScalarBackward
                    &&& !old(self)@.backward_fits(loss)
                    &&& final(self)@ == old(self)@
                },
            },
    {
        if loss >= self.tensors.len() {
            return Err(Error::NonScalarBackward);
        }
        if !is_scalar(self.tensors[loss].shape()) {
            return Err(Error::NonScalarBackward);
        }
        let ghost start = self@;
        assert(start.tensors[loss as int].wf());
        proof {
            lemma_scalar_shape_product(start.tensors[loss as int].shape);
        }
        let mut one: Vec<Fixed> = Vec::new();
        one.push(Fixed::one());
        assert(raws(one@) =~= seq![ONE_RAW as int]);
        self.tensors[loss].zero_grad();
        let _ = self.tensors[loss].accumulate_grad(&one);
        assert(tensor_views(self.tensors@) =~= seeded(start.tensors, loss as int));
        proof {
            assert forall|i: int| 0 <= i < self.tensors.len() implies (#[trigger] tensor_views(
                self.tensors@,
            )[i]).wf() by {
                assert(start.tensors[i].wf());
            }
            lemma_tape_wf_frame(start.tape, start.tensors, tensor_views(self.tensors@));
        }
        let mut k: usize = self.tape.len();
        while k > 0
            invariant
                k <= self.tape.len(),
                node_views(self.tape@) == start.tape,
                tensors_wf(tensor_views(self.tensors@)),
                tape_wf(start.tape, tensor_views(self.tensors@)),
                same_values(start.tensors, tensor_views(self.tensors@)),
                unwind(tensor_views(self.tensors@), start.tape, k as nat) == unwind(
                    seeded(start.tensors, loss as int),
                    start.tape,
                    start.tape.len(),
                ),
            decreases k,
        {
            k = k - 1;
            let ghost before = tensor_views(self.tensors@);
            assert(node_wf(start.tape[k as int], before));
            apply_node(&mut self.tensors, &self.tape[k]);
            proof {
                lemma_tape_wf_frame(start.tape, before, tensor_views(self.tensors@));
            }
        }
        self.tape.clear();
        assert(node_views(self.tape@) =~= Seq::<NodeView>::empty());
        Ok(())
    }

    /// Drops the gradients of the tensors named in `ids`. Identifiers that
    /// name no tensor are passed over.
    pub fn zero_grad(&mut self, ids: &Vec<usize>)
        requires
            old(self).wf(),
        ensures
            final(self).wf(),
            final(self)@ == old(self)@.zero_grad(ids@),
    {
        let ghost start = self@;
        let mut j: usize = 0;
        assert(tensor_views(self.tensors@) =~= cleared(start.tensors, ids@.take(0)));
        while j < ids.len()
            invariant
                j <= ids.len(),
                node_views(self.tape@) == start.tape,
                self.tensors.len() == start.tensors.len(),
                tensor_views(self.tensors@) == cleared(start.tensors, ids@.take(j as int)),
            decreases ids.len() - j,
        {
            let id: usize = ids[j];
            let ghost shorter = ids@.take(j as int);
            let ghost longer = ids@.take(j + 1);
            let ghost mid = tensor_views(self.tensors@);
            if id < self.tensors.len() {
                self.tensors[id].zero_grad();
            }
            proof {
                assert(longer =~= shorter.push(id));
                assert forall|v: usize| #[trigger]
                    longer.contains(v) == (shorter.contains(v) || v == id) by {
                    if shorter.contains(v) {
                        let w = choose|w: int| 0 <= w < shorter.len() && shorter[w] == v;
                        assert(longer[w] == v);
                    }
                    if v == id {
                        assert(longer[j as int] == v);
                    }
                }
                assert forall|i: int| 0 <= i < start.tensors.len() implies tensor_views(
                    self.tensors@,
                )[i] == cleared(start.tensors, longer)[i] by {
                    assert(mid[i] == cleared(start.tensors, shorter)[i]);
                    if i == id {
                        assert(tensor_views(self.tensors@)[i] == mid[i].cleared());
                        assert(longer.contains(i as usize));
                    } else {
                        assert(tensor_views(self.tensors@)[i] == mid[i]);
                        assert(longer.contains(i as usize) == shorter.contains(i as usize));
                    }
                }
                assert(tensor_views(self.tensors@) =~= cleared(start.tensors, longer));
            }
            j = j + 1;
        }
        proof {
            assert(ids@.take(ids.len() as int) =~= ids@);
            assert forall|i: int| 0 <= i < self.tensors.len() implies (#[trigger] tensor_views(
                self.tensors@,
            )[i]).wf() by {
                assert(start.tensors[i].wf());
            }
            lemma_tape_wf_frame(start.tape, start.tensors, tensor_views(self.tensors@));
        }
    }

    /// Replaces the values of tensor `id` in place. Fails, and changes
    /// nothing, when the arena holds no tensor `id` or `data` has another
    /// size than the tensor.
    pub fn assign(&mut self, id: usize, data: Vec<Fixed>) -> (r: Result<(), Error>)
        requires
            old(self).wf(),
        ensures
            final(self).wf(),
            match r {
                Ok(_) => {
                    &&& id < old(self)@.tensors.len()
                    &&& data.len() == old(self)@.tensors[id as int].data.len()
                    &&& final(self)@.tape == old(self)@.tape
                    &&& final(self)@.tensors == old(self)@.tensors.update(
                        id as int,
                        old(self)@.tensors[id as int].assigned(raws(data@)),
                    )
                },
                Err(e) => {
                    &&& e == Error::ShapeMismatch
                    &&& (id >= old(self)@.tensors.len() || data.len() != old(self)@.tensors[id as int].data.len())
                    &&& final(self)@ == old(self)@
                },
            },
    {
        if id >= self.tensors.len() {
            return Err(Error::ShapeMismatch);
        }
        let ghost start = self@;
        assert(start.tensors[id as int].wf());
        let r = self.tensors[id].assign(data);
        proof {
            if r.is_ok() {
                assert(tensor_views(self.tensors@) =~= start.tensors.update(
                    id as int,
                    start.tensors[id as int].assigned(raws(data@)),
                ));
                assert(raws(data@).len() == data.len());
            } else {
                assert(tensor_views(self.tensors@) =~= start.tensors);
            }
            assert forall|i: int| 0 <= i < self.tensors.len() implies (#[trigger] tensor_views(
                self.tensors@,
            )[i]).wf() by {
                assert(start.tensors[i].wf());
            }
            lemma_tape_wf_frame(start.tape, start.tensors, tensor_views(self.tensors@));
        }
        r
    }

    /// Cuts the arena back to its first `keep` tensors and empties the
    /// tape, so that the results of earlier operations no longer take up
    /// room.
    pub fn reset(&mut self, keep: usize)
        requires
            old(self).wf(),
        ensures
            final(self).wf(),
            final(self)@ == old(self)@.reset(keep),
    {
        let ghost start = self@;
        self.tape.clear();
        self.tensors.truncate(keep);
        proof {
            assert(node_views(self.tape@) =~= Seq::<NodeView>::empty());
            assert(tensor_views(self.tensors@) =~= start.reset(keep).tensors);
            assert forall|i: int| 0 <= i < self.tensors.len() implies (#[trigger] tensor_views(
                self.tensors@,
            )[i]).wf() by {
                assert(start.tensors[i].wf());
            }
        }
    }
}

} // verus!
