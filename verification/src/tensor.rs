//! Dense tensors: a shape, a flat buffer of values stored row by row, and
//! an optional gradient of the same size.

use crate::error::Error;
use crate::fixed::Fixed;
use crate::numeric;
use crate::numeric::{
    fx_mean, grid_dot, raws, seq_add_row, seq_diff, seq_pow, seq_prod, seq_scale, seq_sum,
    seq_zeros, Walk,
};
use crate::shape::{
    copy_shape, element_count, lemma_shape_product_one, lemma_shape_product_two, same_shape,
    shape_product,
};
use vstd::prelude::*;

verus! {

/// What a tensor is: its shape, its values row by row, whether gradients
/// are tracked for it, and the gradient accumulated so far.
pub struct TensorView {
    pub shape: Seq<usize>,
    pub data: Seq<int>,
    pub requires_grad: bool,
    pub grad: Option<Seq<int>>,
}

impl TensorView {
    /// The buffer holds as many values as the shape asks for, and so does
    /// the gradient when there is one.
    pub open spec fn wf(self) -> bool {
        &&& self.data.len() == shape_product(self.shape)
        &&& self.grad matches Some(g) ==> g.len() == self.data.len()
    }

    /// A tensor without a gradient.
    pub open spec fn fresh(shape: Seq<usize>, data: Seq<int>, requires_grad: bool) -> TensorView {
        TensorView { shape, data, requires_grad, grad: None }
    }

    /// This tensor with `g` added to its gradient; the first contribution
    /// becomes the gradient as it is.
    pub open spec fn accumulate(self, g: Seq<int>) -> TensorView {
        TensorView {
            grad: Some(
                match self.grad {
                    Some(old_grad) => seq_sum(old_grad, g),
                    None => g,
                },
            ),
            ..self
        }
    }

    /// This tensor without its gradient.
    pub open spec fn cleared(self) -> TensorView {
        TensorView { grad: None, ..self }
    }

    /// This tensor with other values.
    pub open spec fn assigned(self, data: Seq<int>) -> TensorView {
        TensorView { data, ..self }
    }
}

/// Whether `x`, `w` and `b` can form `x * w + b`: a matrix, a matrix with
/// as many rows as `x` has columns, a vector with as many entries as `w`
/// has columns, and a result whose size fits the machine.
pub open spec fn affine_fits(x: TensorView, w: TensorView, b: TensorView) -> bool {
    &&& x.shape.len() == 2
    &&& w.shape.len() == 2
    &&& b.shape.len() == 1
    &&& x.shape[1] == w.shape[0]
    &&& w.shape[1] == b.shape[0]
    &&& x.shape[0] * w.shape[1] <= usize::MAX
}

/// The values of `x * w + b` for an `n` by `k` matrix `x`, a `k` by `m`
/// matrix `w` and a vector `b` of `m` entries.
pub open spec fn affine_data(x: Seq<int>, w: Seq<int>, b: Seq<int>, n: usize, k: usize, m: usize) -> Seq<
    int,
> {
    seq_add_row(
        grid_dot(x, Walk::row_of_row(k), w, Walk::column_of_column(m), n as nat, m as nat, k as nat),
        b,
    )
}

/// The tensor `x * w + b`.
pub open spec fn affine_value(x: TensorView, w: TensorView, b: TensorView) -> TensorView {
    TensorView::fresh(
        seq![x.shape[0], w.shape[1]],
        affine_data(x.data, w.data, b.data, x.shape[0], x.shape[1], w.shape[1]),
        x.requires_grad || w.requires_grad || b.requires_grad,
    )
}

/// The tensor that holds the mean of `x` as its only element.
pub open spec fn mean_value(x: TensorView) -> TensorView {
    TensorView::fresh(seq![1usize], seq![fx_mean(x.data)], x.requires_grad)
}

/// A dense tensor of fixed-point numbers.
pub struct Tensor {
    shape: Vec<usize>,
    data: Vec<Fixed>,
    requires_grad: bool,
    grad: Option<Vec<Fixed>>,
}

impl View for Tensor {
    type V = TensorView;

    closed spec fn view(&self) -> TensorView {
        TensorView {
            shape: self.shape@,
            data: raws(self.data@),
            requires_grad: self.requires_grad,
            grad: match self.grad {
                Some(g) => Some(raws(g@)),
                None => None,
            },
        }
    }
}

impl Tensor {
    /// The tensor's buffers have the sizes that its shape asks for.
    pub open spec fn wf(&self) -> bool {
        self@.wf()
    }

    /// A tensor of the given shape filled with zeros.
    pub fn zeros(shape: Vec<usize>) -> (t: Tensor)
        requires
            shape_product(shape@) <= usize::MAX,
        ensures
            t.wf(),
            t@ == TensorView::fresh(shape@, seq_zeros(shape_product(shape@)), false),
    {
        let n: usize = match element_count(&shape) {
            Some(n) => n,
            None => 0,
        };
        let data = numeric::zeros(n);
        Tensor { shape, data, requires_grad: false, grad: None }
    }

    /// A tensor of the given shape and values. Fails when the number of
    /// values is not the product of the dimensions.
    pub fn from_values(shape: Vec<usize>, data: Vec<Fixed>) -> (r: Result<Tensor, Error>)
        ensures
            match r {
                Ok(t) => {
                    &&& data.len() == shape_product(shape@)
                    &&& t.wf()
                    &&& t@ == TensorView::fresh(shape@, raws(data@), false)
                },
                Err(e) => e == Error::ShapeMismatch && data.len() != shape_product(shape@),
            },
    {
        match element_count(&shape) {
            Some(n) => {
                if n != data.len() {
                    return Err(Error::ShapeMismatch);
                }
            },
            None => {
                return Err(Error::ShapeMismatch);
            },
        }
        Ok(Tensor { shape, data, requires_grad: false, grad: None })
    }

    /// The tensor of shape `[1]` that holds `v`.
    pub fn scalar(v: Fixed) -> (t: Tensor)
        ensures
            t.wf(),
            t@ == TensorView::fresh(seq![1usize], seq![v@], false),
    {
        let mut shape: Vec<usize> = Vec::new();
        shape.push(1);
        let mut data: Vec<Fixed> = Vec::new();
        data.push(v);
        proof {
            assert(shape@ =~= seq![1usize]);
            assert(raws(data@) =~= seq![v@]);
            lemma_shape_product_one(shape@);
        }
        Tensor { shape, data, requires_grad: false, grad: None }
    }

    /// Gives the tensor another shape that holds as many values. Fails, and
    /// changes nothing, when the shape asks for another number of values.
    pub fn reshape(&mut self, shape: Vec<usize>) -> (r: Result<(), Error>)
        requires
            old(self).wf(),
        ensures
            final(self).wf(),
            match r {
                Ok(_) => {
                    &&& shape_product(shape@) == old(self)@.data.len()
                    &&& final(self)@ == (TensorView { shape: shape@, ..old(self)@ })
                },
                Err(e) => {
                    &&& e == Error::ShapeMismatch
                    &&& shape_product(shape@) != old(self)@.data.len()
                    &&& final(self)@ == old(self)@
                },
            },
    {
        assert(raws(self.data@).len() == self.data.len());
        match element_count(&shape) {
            Some(n) => {
                if n != self.data.len() {
                    return Err(Error::ShapeMismatch);
                }
            },
            None => {
                return Err(Error::ShapeMismatch);
            },
        }
        self.shape = shape;
        Ok(())
    }

    /// The values, row by row, given up by the tensor.
    pub fn into_data(self) -> (d: Vec<Fixed>)
        ensures
            raws(d@) == self@.data,
    {
        self.data
    }

    /// This tensor with gradient tracking switched on or off.
    pub fn with_grad(self, requires_grad: bool) -> (t: Tensor)
        ensures
            t@ == (TensorView { requires_grad, ..self@ }),
    {
        Tensor { shape: self.shape, data: self.data, requires_grad, grad: self.grad }
    }

    /// The dimensions.
    pub fn shape(&self) -> (s: &Vec<usize>)
        ensures
            s@ == self@.shape,
    {
        &self.shape
    }

    /// The values, row by row.
    pub fn data(&self) -> (d: &Vec<Fixed>)
        ensures
            raws(d@) == self@.data,
    {
        &self.data
    }

    /// The number of values.
    pub fn len(&self) -> (n: usize)
        ensures
            n == self@.data.len(),
    {
        self.data.len()
    }

    /// Whether gradients are tracked for this tensor.
    pub fn requires_grad(&self) -> (b: bool)
        ensures
            b == self@.requires_grad,
    {
        self.requires_grad
    }

    /// The gradient accumulated so far, if any.
    pub fn grad(&self) -> (g: Option<&Vec<Fixed>>)
        ensures
            match g {
                Some(v) => self@.grad == Some(raws(v@)),
                None => self@.grad.is_none(),
            },
    {
        match &self.grad {
            Some(v) => Some(v),
            None => None,
        }
    }

    /// Adds `g` to the gradient, element by element; the first
    /// contribution is taken as it is. Fails, and changes nothing, when `g`
    /// has another size than the tensor.
    pub fn accumulate_grad(&mut self, g: &Vec<Fixed>) -> (r: Result<(), Error>)
        requires
            old(self).wf(),
        ensures
            final(self).wf(),
            match r {
                Ok(_) => g.len() == old(self)@.data.len() && final(self)@ == old(self)@.accumulate(
                    raws(g@),
                ),
                Err(e) => e == Error::ShapeMismatch && g.len() != old(self)@.data.len() && final(self)@ == old(self)@,
            },
    {
        if g.len() != self.data.len() {
            return Err(Error::ShapeMismatch);
        }
        let next: Vec<Fixed> = match &self.grad {
            Some(held) => numeric::zip_sum(held, g),
            None => numeric::copy(g),
        };
        self.grad = Some(next);
        Ok(())
    }

    /// Drops the gradient.
    pub fn zero_grad(&mut self)
        ensures
            final(self)@ == old(self)@.cleared(),
    {
        self.grad = None;
    }

    /// Replaces the values in place. Fails, and changes nothing, when
    /// `data` has another size than the tensor.
    pub fn assign(&mut self, data: Vec<Fixed>) -> (r: Result<(), Error>)
        requires
            old(self).wf(),
        ensures
            final(self).wf(),
            match r {
                Ok(_) => data.len() == old(self)@.data.len() && final(self)@ == old(self)@.assigned(raws(data@)),
                Err(e) => e == Error::ShapeMismatch && data.len() != old(self)@.data.len()
                    && final(self)@ == old(self)@,
            },
    {
        if data.len() != self.data.len() {
            return Err(Error::ShapeMismatch);
        }
        self.data = data;
        Ok(())
    }

    /// The elementwise sum of two tensors of one shape.
    pub fn add(&self, other: &Tensor) -> (r: Result<Tensor, Error>)
        requires
            self.wf(),
            other.wf(),
        ensures
            match r {
                Ok(t) => {
                    &&& self@.shape == other@.shape
                    &&& t.wf()
                    &&& t@ == TensorView::fresh(
                        self@.shape,
                        seq_sum(self@.data, other@.data),
                        self@.requires_grad || other@.requires_grad,
                    )
                },
                Err(e) => e == Error::ShapeMismatch && self@.shape != other@.shape,
            },
    {
        if !same_shape(&self.shape, &other.shape) {
            return Err(Error::ShapeMismatch);
        }
        Ok(
            Tensor {
                shape: copy_shape(&self.shape),
                data: numeric::zip_sum(&self.data, &other.data),
                requires_grad: self.requires_grad || other.requires_grad,
                grad: None,
            },
        )
    }

    /// The elementwise difference of two tensors of one shape.
    pub fn subtract(&self, other: &Tensor) -> (r: Result<Tensor, Error>)
        requires
            self.wf(),
            other.wf(),
        ensures
            match r {
                Ok(t) => {
                    &&& self@.shape == other@.shape
                    &&& t.wf()
                    &&& t@ == TensorView::fresh(
                        self@.shape,
                        seq_diff(self@.data, other@.data),
                        self@.requires_grad || other@.requires_grad,
                    )
                },
                Err(e) => e == Error::ShapeMismatch && self@.shape != other@.shape,
            },
    {
        if !same_shape(&self.shape, &other.shape) {
            return Err(Error::ShapeMismatch);
        }
        Ok(
            Tensor {
                shape: copy_shape(&self.shape),
                data: numeric::zip_diff(&self.data, &other.data),
                requires_grad: self.requires_grad || other.requires_grad,
                grad: None,
            },
        )
    }

    /// The elementwise product of two tensors of one shape.
    pub fn multiply(&self, other: &Tensor) -> (r: Result<Tensor, Error>)
        requires
            self.wf(),
            other.wf(),
        ensures
            match r {
                Ok(t) => {
                    &&& self@.shape == other@.shape
                    &&& t.wf()
                    &&& t@ == TensorView::fresh(
                        self@.shape,
                        seq_prod(self@.data, other@.data),
                        self@.requires_grad || other@.requires_grad,
                    )
                },
                Err(e) => e == Error::ShapeMismatch && self@.shape != other@.shape,
            },
    {
        if !same_shape(&self.shape, &other.shape) {
            return Err(Error::ShapeMismatch);
        }
        Ok(
            Tensor {
                shape: copy_shape(&self.shape),
                data: numeric::zip_prod(&self.data, &other.data),
                requires_grad: self.requires_grad || other.requires_grad,
                grad: None,
            },
        )
    }

    /// Every value multiplied by `k`.
    pub fn scale(&self, k: Fixed) -> (t: Tensor)
        requires
            self.wf(),
        ensures
            t.wf(),
            t@ == TensorView::fresh(
                self@.shape,
                seq_scale(self@.data, k@),
                self@.requires_grad,
            ),
    {
        Tensor {
            shape: copy_shape(&self.shape),
            data: numeric::scale(&self.data, k),
            requires_grad: self.requires_grad,
            grad: None,
        }
    }

    /// Every value raised to the power `p`.
    pub fn power_scalar(&self, p: u32) -> (t: Tensor)
        requires
            self.wf(),
        ensures
            t.wf(),
            t@ == TensorView::fresh(
                self@.shape,
                seq_pow(self@.data, p as nat),
                self@.requires_grad,
            ),
    {
        Tensor {
            shape: copy_shape(&self.shape),
            data: numeric::power(&self.data, p),
            requires_grad: self.requires_grad,
            grad: None,
        }
    }

    /// The mean of all values, as a tensor of shape `[1]`.
    pub fn mean(&self) -> (t: Tensor)
        ensures
            t.wf(),
            t@ == mean_value(self@),
    {
        let t = Tensor::scalar(numeric::mean(&self.data));
        Tensor { shape: t.shape, data: t.data, requires_grad: self.requires_grad, grad: None }
    }

    /// Whether `self * weight + bias` can be formed.
    pub fn affine_fits(&self, weight: &Tensor, bias: &Tensor) -> (r: bool)
        ensures
            r == affine_fits(self@, weight@, bias@),
    {
        if self.shape.len() != 2 || weight.shape.len() != 2 || bias.shape.len() != 1 {
            return false;
        }
        if weight.shape[0] != self.shape[1] || bias.shape[0] != weight.shape[1] {
            return false;
        }
        self.shape[0].checked_mul(weight.shape[1]).is_some()
    }

    /// The affine map `self * weight + bias`, where `self` is a matrix of
    /// `n` rows, `weight` a matrix with as many rows as `self` has columns,
    /// and `bias` a vector that is added to every row of the product.
    pub fn affine(&self, weight: &Tensor, bias: &Tensor) -> (r: Result<Tensor, Error>)
        requires
            self.wf(),
            weight.wf(),
            bias.wf(),
        ensures
            match r {
                Ok(t) => {
                    &&& affine_fits(self@, weight@, bias@)
                    &&& t.wf()
                    &&& t@ == affine_value(self@, weight@, bias@)
                },
                Err(e) => e == Error::ShapeMismatch && !affine_fits(self@, weight@, bias@),
            },
    {
        if !self.affine_fits(weight, bias) {
            return Err(Error::ShapeMismatch);
        }
        let n: usize = self.shape[0];
        let k: usize = self.shape[1];
        let m: usize = weight.shape[1];
        proof {
            lemma_shape_product_two(self.shape@);
            lemma_shape_product_two(weight.shape@);
            lemma_shape_product_one(bias.shape@);
            if n > 0 && m > 0 && k > 0 {
                assert((n - 1) * k + (m - 1) * 0 + (k - 1) * 1 < n * k) by (nonlinear_arith)
                    requires
                        n > 0,
                        k > 0,
                ;
                assert((n - 1) * 0 + (m - 1) * 1 + (k - 1) * m < k * m) by (nonlinear_arith)
                    requires
                        m > 0,
                        k > 0,
                ;
            }
        }
        let product = numeric::grid(
            &self.data,
            Walk { row: k, col: 0, step: 1 },
            &weight.data,
            Walk { row: 0, col: 1, step: m },
            n,
            m,
            k,
        );
        proof {
            if m == 0 {
                assert(n * m == 0) by (nonlinear_arith)
                    requires
                        m == 0,
                ;
            }
        }
        let data = numeric::add_row(&product, &bias.data);
        let mut shape: Vec<usize> = Vec::new();
        shape.push(n);
        shape.push(m);
        proof {
            assert(shape@ =~= seq![n, m]);
            lemma_shape_product_two(shape@);
        }
        Ok(
            Tensor {
                shape,
                data,
                requires_grad: self.requires_grad || weight.requires_grad || bias.requires_grad,
                grad: None,
            },
        )
    }
}

} // verus!
