//! Tensor shapes: ordered lists of dimension sizes.

use vstd::prelude::*;

verus! {

/// The number of elements of a tensor of the given shape: the product of
/// its dimensions, one for the empty shape.
pub open spec fn shape_product(shape: Seq<usize>) -> nat
    decreases shape.len(),
{
    if shape.len() == 0 {
        1
    } else {
        shape_product(shape.drop_last()) * (shape.last() as nat)
    }
}

/// A shape denotes a scalar when it is empty or the single dimension one.
pub open spec fn is_scalar_shape(shape: Seq<usize>) -> bool {
    shape.len() == 0 || (shape.len() == 1 && shape[0] == 1)
}

/// A scalar shape holds exactly one element.
pub proof fn lemma_scalar_shape_product(shape: Seq<usize>)
    requires
        is_scalar_shape(shape),
    ensures
        shape_product(shape) == 1,
{
    if shape.len() == 1 {
        assert(shape.drop_last().len() == 0);
        assert(shape_product(shape.drop_last()) == 1);
        assert(shape.last() == 1);
    }
}

/// The product of a one-dimensional shape is its only dimension.
pub proof fn lemma_shape_product_one(shape: Seq<usize>)
    requires
        shape.len() == 1,
    ensures
        shape_product(shape) == shape[0],
{
    assert(shape.drop_last().len() == 0);
    assert(shape_product(shape.drop_last()) == 1);
    assert(1 * (shape.last() as nat) == shape.last() as nat) by (nonlinear_arith);
}

/// The product of a two-dimensional shape is rows times columns.
pub proof fn lemma_shape_product_two(shape: Seq<usize>)
    requires
        shape.len() == 2,
    ensures
        shape_product(shape) == (shape[0] as nat) * (shape[1] as nat),
{
    let front = shape.drop_last();
    assert(front.len() == 1);
    assert(front[0] == shape[0]);
    lemma_shape_product_one(front);
}

/// A shape with a zero dimension holds no element.
pub proof fn lemma_zero_dimension(shape: Seq<usize>, k: int)
    requires
        0 <= k < shape.len(),
        shape[k] == 0,
    ensures
        shape_product(shape) == 0,
    decreases shape.len(),
{
    if k == shape.len() - 1 {
        assert(shape_product(shape.drop_last()) * 0 == 0) by (nonlinear_arith);
    } else {
        assert(shape.drop_last()[k] == 0);
        lemma_zero_dimension(shape.drop_last(), k);
        assert(0 * (shape.last() as nat) == 0) by (nonlinear_arith);
    }
}

/// Without a zero dimension, every prefix of a shape holds at most as many
/// elements as the whole shape.
pub proof fn lemma_prefix_product(shape: Seq<usize>, k: int)
    requires
        0 <= k <= shape.len(),
        forall|i: int| 0 <= i < shape.len() ==> shape[i] != 0,
    ensures
        shape_product(shape.take(k)) <= shape_product(shape),
    decreases shape.len() - k,
{
    if k == shape.len() {
        assert(shape.take(k) =~= shape);
    } else {
        lemma_prefix_product(shape, k + 1);
        let longer = shape.take(k + 1);
        assert(longer.drop_last() =~= shape.take(k));
        assert(longer.last() == shape[k]);
        let p = shape_product(shape.take(k));
        let d = shape[k] as nat;
        assert(p <= p * d) by (nonlinear_arith)
            requires
                d >= 1,
        ;
    }
}

/// The number of elements of `shape`, or `None` when it does not fit the
/// machine's size type.
pub fn element_count(shape: &Vec<usize>) -> (r: Option<usize>)
    ensures
        match r {
            Some(n) => n == shape_product(shape@),
            None => shape_product(shape@) > usize::MAX,
        },
{
    let n: usize = shape.len();
    let mut z: usize = 0;
    while z < n
        invariant
            n == shape.len(),
            z <= n,
            forall|i: int| 0 <= i < z ==> shape@[i] != 0,
        decreases n - z,
    {
        if shape[z] == 0 {
            proof {
                lemma_zero_dimension(shape@, z as int);
            }
            return Some(0);
        }
        z = z + 1;
    }
    let mut count: usize = 1;
    let mut i: usize = 0;
    assert(shape@.take(0).len() == 0);
    while i < n
        invariant
            n == shape.len(),
            i <= n,
            forall|j: int| 0 <= j < n ==> shape@[j] != 0,
            count == shape_product(shape@.take(i as int)),
        decreases n - i,
    {
        let ghost longer = shape@.take(i + 1);
        proof {
            assert(longer.drop_last() =~= shape@.take(i as int));
            assert(longer.last() == shape@[i as int]);
        }
        match count.checked_mul(shape[i]) {
            Some(next) => {
                count = next;
            },
            None => {
                proof {
                    lemma_prefix_product(shape@, i + 1);
                }
                return None;
            },
        }
        i = i + 1;
    }
    assert(shape@.take(n as int) =~= shape@);
    Some(count)
}

/// Whether two shapes are the same list of dimensions.
pub fn same_shape(a: &Vec<usize>, b: &Vec<usize>) -> (r: bool)
    ensures
        r == (a@ == b@),
{
    if a.len() != b.len() {
        return false;
    }
    let n: usize = a.len();
    let mut i: usize = 0;
    while i < n
        invariant
            n == a.len(),
            n == b.len(),
            i <= n,
            forall|j: int| 0 <= j < i ==> a@[j] == b@[j],
        decreases n - i,
    {
        if a[i] != b[i] {
            return false;
        }
        i = i + 1;
    }
    assert(a@ =~= b@);
    true
}

/// Whether a shape denotes a scalar.
pub fn is_scalar(shape: &Vec<usize>) -> (r: bool)
    ensures
        r == is_scalar_shape(shape@),
{
    shape.len() == 0 || (shape.len() == 1 && shape[0] == 1)
}

/// A copy of a shape.
pub fn copy_shape(shape: &Vec<usize>) -> (r: Vec<usize>)
    ensures
        r@ == shape@,
{
    let n: usize = shape.len();
    let mut out: Vec<usize> = Vec::new();
    let mut i: usize = 0;
    while i < n
        invariant
            n == shape.len(),
            i <= n,
            out@ == shape@.take(i as int),
        decreases n - i,
    {
        out.push(shape[i]);
        assert(out@ =~= shape@.take(i + 1));
        i = i + 1;
    }
    assert(shape@.take(n as int) =~= shape@);
    out
}

} // verus!
