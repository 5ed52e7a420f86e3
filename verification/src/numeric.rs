//! Arithmetic on flat buffers of fixed-point numbers: elementwise maps,
//! totals, and dot products that walk two buffers with a stride each.

use crate::fixed::{fx_diff, fx_neg, fx_pow, fx_prod, fx_quot, fx_sum, fx_whole, Fixed};
use vstd::arithmetic::div_mod::lemma_fundamental_div_mod_converse;
use vstd::prelude::*;

verus! {

/// The raw counts of a buffer of numbers.
pub open spec fn raws(s: Seq<Fixed>) -> Seq<int> {
    Seq::new(s.len(), |i: int| s[i]@)
}

/// A buffer of `n` zeros.
pub open spec fn seq_zeros(n: nat) -> Seq<int> {
    Seq::new(n, |i: int| 0int)
}

/// A buffer of `n` copies of `v`.
pub open spec fn seq_fill(n: nat, v: int) -> Seq<int> {
    Seq::new(n, |i: int| v)
}

/// Elementwise sum; as long as `a`.
pub open spec fn seq_sum(a: Seq<int>, b: Seq<int>) -> Seq<int> {
    Seq::new(a.len(), |i: int| fx_sum(a[i], b[i]))
}

/// Elementwise difference; as long as `a`.
pub open spec fn seq_diff(a: Seq<int>, b: Seq<int>) -> Seq<int> {
    Seq::new(a.len(), |i: int| fx_diff(a[i], b[i]))
}

/// Elementwise product; as long as `a`.
pub open spec fn seq_prod(a: Seq<int>, b: Seq<int>) -> Seq<int> {
    Seq::new(a.len(), |i: int| fx_prod(a[i], b[i]))
}

/// Every element multiplied by `k`.
pub open spec fn seq_scale(a: Seq<int>, k: int) -> Seq<int> {
    Seq::new(a.len(), |i: int| fx_prod(a[i], k))
}

/// Every element negated.
pub open spec fn seq_neg(a: Seq<int>) -> Seq<int> {
    Seq::new(a.len(), |i: int| fx_neg(a[i]))
}

/// Every element raised to the power `p`.
pub open spec fn seq_pow(a: Seq<int>, p: nat) -> Seq<int> {
    Seq::new(a.len(), |i: int| fx_pow(a[i], p))
}

/// The factor by which a change of `x` changes `x` raised to the power `p`:
/// `p` times `x` to the power `p - 1`, and zero for the constant power zero.
pub open spec fn fx_pow_slope(x: int, p: nat) -> int {
    if p == 0 {
        0
    } else {
        fx_prod(fx_whole(p as int), fx_pow(x, (p - 1) as nat))
    }
}

/// The slope of the power `p` at every element, times the matching element
/// of `g`; as long as `x`.
pub open spec fn seq_pow_grad(x: Seq<int>, p: nat, g: Seq<int>) -> Seq<int> {
    Seq::new(x.len(), |i: int| fx_prod(fx_pow_slope(x[i], p), g[i]))
}

/// The elements added up from the left, starting at zero.
pub open spec fn fx_total(s: Seq<int>) -> int
    decreases s.len(),
{
    if s.len() == 0 {
        0
    } else {
        fx_sum(fx_total(s.drop_last()), s.last())
    }
}

/// The total divided by the number of elements.
pub open spec fn fx_mean(s: Seq<int>) -> int {
    fx_quot(fx_total(s), fx_whole(s.len() as int))
}

/// The sum over `u < t` of `a[a0 + u * a_step] * b[b0 + u * b_step]`,
/// added up from the left, starting at zero.
pub open spec fn strided_dot(
    a: Seq<int>,
    a0: int,
    a_step: int,
    b: Seq<int>,
    b0: int,
    b_step: int,
    t: nat,
) -> int
    decreases t,
{
    if t == 0 {
        0
    } else {
        fx_sum(
            strided_dot(a, a0, a_step, b, b0, b_step, (t - 1) as nat),
            fx_prod(a[a0 + (t - 1) * a_step], b[b0 + (t - 1) * b_step]),
        )
    }
}

/// The sum over `u < t` of `a[a0 + u * a_step]`, added up from the left,
/// starting at zero.
pub open spec fn strided_total(a: Seq<int>, a0: int, a_step: int, t: nat) -> int
    decreases t,
{
    if t == 0 {
        0
    } else {
        fx_sum(strided_total(a, a0, a_step, (t - 1) as nat), a[a0 + (t - 1) * a_step])
    }
}

/// How a grid of dot products walks one of its two buffers: the entry in
/// row `r` and column `c` starts at `r * row + c * col` and advances by
/// `step`.
#[derive(Clone, Copy)]
pub struct Walk {
    pub row: usize,
    pub col: usize,
    pub step: usize,
}

impl Walk {
    /// The entry in row `r` walks along row `r` of a buffer whose rows are
    /// `width` long.
    pub open spec fn row_of_row(width: usize) -> Walk {
        Walk { row: width, col: 0, step: 1 }
    }

    /// The entry in column `c` walks along row `c` of a buffer whose rows
    /// are `width` long.
    pub open spec fn row_of_column(width: usize) -> Walk {
        Walk { row: 0, col: width, step: 1 }
    }

    /// The entry in row `r` walks down column `r` of a buffer whose rows
    /// are `width` long.
    pub open spec fn column_of_row(width: usize) -> Walk {
        Walk { row: 1, col: 0, step: width }
    }

    /// The entry in column `c` walks down column `c` of a buffer whose rows
    /// are `width` long.
    pub open spec fn column_of_column(width: usize) -> Walk {
        Walk { row: 0, col: 1, step: width }
    }

    /// Where the entry in row `r` and column `c` starts.
    pub open spec fn start(self, r: int, c: int) -> int {
        r * self.row + c * self.col
    }

    /// Every index that a grid of `rows` by `cols` dot products of `count`
    /// terms touches lies inside a buffer of `len` elements.
    pub open spec fn fits(self, len: nat, rows: nat, cols: nat, count: nat) -> bool {
        rows > 0 && cols > 0 && count > 0 ==> (rows - 1) * self.row + (cols - 1) * self.col + (
        count - 1) * self.step < len
    }
}

/// A grid of `rows` by `cols` dot products of `count` terms each, stored
/// row by row.
pub open spec fn grid_dot(
    a: Seq<int>,
    wa: Walk,
    b: Seq<int>,
    wb: Walk,
    rows: nat,
    cols: nat,
    count: nat,
) -> Seq<int> {
    Seq::new(
        rows * cols,
        |i: int|
            strided_dot(
                a,
                wa.start(i / (cols as int), i % (cols as int)),
                wa.step as int,
                b,
                wb.start(i / (cols as int), i % (cols as int)),
                wb.step as int,
                count,
            ),
    )
}

/// The totals of the `cols` columns of a buffer of `rows` rows.
pub open spec fn column_totals(a: Seq<int>, rows: nat, cols: nat) -> Seq<int> {
    Seq::new(cols, |j: int| strided_total(a, j, cols as int, rows))
}

/// `row` added to every row of `a`, whose rows are as long as `row`.
pub open spec fn seq_add_row(a: Seq<int>, row: Seq<int>) -> Seq<int> {
    Seq::new(a.len(), |i: int| fx_sum(a[i], row[i % (row.len() as int)]))
}

/// Row `r`, column `c` of a grid with `cols` columns is element
/// `r * cols + c` of its buffer, and the other way round.
pub proof fn lemma_flat_index(r: int, c: int, rows: int, cols: int)
    requires
        0 <= r < rows,
        0 <= c < cols,
    ensures
        0 <= r * cols + c < rows * cols,
        (r * cols + c) / cols == r,
        (r * cols + c) % cols == c,
{
    assert(0 <= r * cols && r * cols + cols <= rows * cols) by (nonlinear_arith)
        requires
            0 <= r < rows,
            0 < cols,
    ;
    lemma_fundamental_div_mod_converse(r * cols + c, cols, r, c);
}

/// Inside a walk that fits its buffer, every index is in bounds.
pub proof fn lemma_walk_index(
    w: Walk,
    len: nat,
    rows: nat,
    cols: nat,
    count: nat,
    r: int,
    c: int,
    t: int,
)
    requires
        w.fits(len, rows, cols, count),
        0 <= r < rows,
        0 <= c < cols,
        0 <= t < count,
    ensures
        0 <= r * w.row,
        0 <= c * w.col,
        0 <= t * w.step,
        w.start(r, c) + t * w.step < len,
{
    let row = w.row as int;
    let col = w.col as int;
    let step = w.step as int;
    assert(0 <= r * row <= (rows - 1) * row) by (nonlinear_arith)
        requires
            0 <= r <= rows - 1,
            0 <= row,
    ;
    assert(0 <= c * col <= (cols - 1) * col) by (nonlinear_arith)
        requires
            0 <= c <= cols - 1,
            0 <= col,
    ;
    assert(0 <= t * step <= (count - 1) * step) by (nonlinear_arith)
        requires
            0 <= t <= count - 1,
            0 <= step,
    ;
}

/// A buffer of `n` zeros.
pub fn zeros(n: usize) -> (out: Vec<Fixed>)
    ensures
        raws(out@) == seq_zeros(n as nat),
{
    let mut out: Vec<Fixed> = Vec::new();
    let mut i: usize = 0;
    while i < n
        invariant
            i <= n,
            out.len() == i,
            forall|j: int| 0 <= j < i ==> out@[j]@ == 0,
        decreases n - i,
    {
        out.push(Fixed::zero());
        i = i + 1;
    }
    assert(raws(out@) =~= seq_zeros(n as nat));
    out
}

/// A copy of a buffer.
pub fn copy(a: &Vec<Fixed>) -> (out: Vec<Fixed>)
    ensures
        out@ == a@,
{
    let n: usize = a.len();
    let mut out: Vec<Fixed> = Vec::new();
    let mut i: usize = 0;
    while i < n
        invariant
            n == a.len(),
            i <= n,
            out.len() == i,
            forall|j: int| 0 <= j < i ==> out@[j] == a@[j],
        decreases n - i,
    {
        out.push(a[i]);
        i = i + 1;
    }
    assert(out@ =~= a@);
    out
}

/// The elementwise sum of two buffers of one length.
pub fn zip_sum(a: &Vec<Fixed>, b: &Vec<Fixed>) -> (out: Vec<Fixed>)
    requires
        a.len() == b.len(),
    ensures
        raws(out@) == seq_sum(raws(a@), raws(b@)),
{
    let n: usize = a.len();
    let mut out: Vec<Fixed> = Vec::new();
    let mut i: usize = 0;
    while i < n
        invariant
            n == a.len(),
            n == b.len(),
            i <= n,
            out.len() == i,
            forall|j: int| 0 <= j < i ==> out@[j]@ == fx_sum(a@[j]@, b@[j]@),
        decreases n - i,
    {
        out.push(a[i].plus(b[i]));
        i = i + 1;
    }
    assert(raws(out@) =~= seq_sum(raws(a@), raws(b@)));
    out
}

/// The elementwise difference of two buffers of one length.
pub fn zip_diff(a: &Vec<Fixed>, b: &Vec<Fixed>) -> (out: Vec<Fixed>)
    requires
        a.len() == b.len(),
    ensures
        raws(out@) == seq_diff(raws(a@), raws(b@)),
{
    let n: usize = a.len();
    let mut out: Vec<Fixed> = Vec::new();
    let mut i: usize = 0;
    while i < n
        invariant
            n == a.len(),
            n == b.len(),
            i <= n,
            out.len() == i,
            forall|j: int| 0 <= j < i ==> out@[j]@ == fx_diff(a@[j]@, b@[j]@),
        decreases n - i,
    {
        out.push(a[i].minus(b[i]));
        i = i + 1;
    }
    assert(raws(out@) =~= seq_diff(raws(a@), raws(b@)));
    out
}

/// The elementwise product of two buffers of one length.
pub fn zip_prod(a: &Vec<Fixed>, b: &Vec<Fixed>) -> (out: Vec<Fixed>)
    requires
        a.len() == b.len(),
    ensures
        raws(out@) == seq_prod(raws(a@), raws(b@)),
{
    let n: usize = a.len();
    let mut out: Vec<Fixed> = Vec::new();
    let mut i: usize = 0;
    while i < n
        invariant
            n == a.len(),
            n == b.len(),
            i <= n,
            out.len() == i,
            forall|j: int| 0 <= j < i ==> out@[j]@ == fx_prod(a@[j]@, b@[j]@),
        decreases n - i,
    {
        out.push(a[i].times(b[i]));
        i = i + 1;
    }
    assert(raws(out@) =~= seq_prod(raws(a@), raws(b@)));
    out
}

/// Every element of a buffer multiplied by `k`.
pub fn scale(a: &Vec<Fixed>, k: Fixed) -> (out: Vec<Fixed>)
    ensures
        raws(out@) == seq_scale(raws(a@), k@),
{
    let n: usize = a.len();
    let mut out: Vec<Fixed> = Vec::new();
    let mut i: usize = 0;
    while i < n
        invariant
            n == a.len(),
            i <= n,
            out.len() == i,
            forall|j: int| 0 <= j < i ==> out@[j]@ == fx_prod(a@[j]@, k@),
        decreases n - i,
    {
        out.push(a[i].times(k));
        i = i + 1;
    }
    assert(raws(out@) =~= seq_scale(raws(a@), k@));
    out
}

/// Every element of a buffer negated.
pub fn negate(a: &Vec<Fixed>) -> (out: Vec<Fixed>)
    ensures
        raws(out@) == seq_neg(raws(a@)),
{
    let n: usize = a.len();
    let mut out: Vec<Fixed> = Vec::new();
    let mut i: usize = 0;
    while i < n
        invariant
            n == a.len(),
            i <= n,
            out.len() == i,
            forall|j: int| 0 <= j < i ==> out@[j]@ == fx_neg(a@[j]@),
        decreases n - i,
    {
        out.push(a[i].neg());
        i = i + 1;
    }
    assert(raws(out@) =~= seq_neg(raws(a@)));
    out
}

/// Every element of a buffer raised to the power `p`.
pub fn power(a: &Vec<Fixed>, p: u32) -> (out: Vec<Fixed>)
    ensures
        raws(out@) == seq_pow(raws(a@), p as nat),
{
    let n: usize = a.len();
    let mut out: Vec<Fixed> = Vec::new();
    let mut i: usize = 0;
    while i < n
        invariant
            n == a.len(),
            i <= n,
            out.len() == i,
            forall|j: int| 0 <= j < i ==> out@[j]@ == fx_pow(a@[j]@, p as nat),
        decreases n - i,
    {
        out.push(a[i].pow(p));
        i = i + 1;
    }
    assert(raws(out@) =~= seq_pow(raws(a@), p as nat));
    out
}

/// The slope of the power `p` at `x`.
pub fn pow_slope(x: Fixed, p: u32) -> (r: Fixed)
    ensures
        r@ == fx_pow_slope(x@, p as nat),
{
    if p == 0 {
        Fixed::zero()
    } else {
        Fixed::from_int(p as i64).times(x.pow(p - 1))
    }
}

/// The slope of the power `p` at every element of `x`, times the matching
/// element of `g`.
pub fn power_grad(x: &Vec<Fixed>, p: u32, g: &Vec<Fixed>) -> (out: Vec<Fixed>)
    requires
        x.len() == g.len(),
    ensures
        raws(out@) == seq_pow_grad(raws(x@), p as nat, raws(g@)),
{
    let n: usize = x.len();
    let mut out: Vec<Fixed> = Vec::new();
    let mut i: usize = 0;
    while i < n
        invariant
            n == x.len(),
            n == g.len(),
            i <= n,
            out.len() == i,
            forall|j: int|
                0 <= j < i ==> out@[j]@ == fx_prod(fx_pow_slope(x@[j]@, p as nat), g@[j]@),
        decreases n - i,
    {
        out.push(pow_slope(x[i], p).times(g[i]));
        i = i + 1;
    }
    assert(raws(out@) =~= seq_pow_grad(raws(x@), p as nat, raws(g@)));
    out
}

/// The total of a buffer.
pub fn total(a: &Vec<Fixed>) -> (r: Fixed)
    ensures
        r@ == fx_total(raws(a@)),
{
    let n: usize = a.len();
    let mut acc: Fixed = Fixed::zero();
    let mut i: usize = 0;
    assert(raws(a@).take(0).len() == 0);
    while i < n
        invariant
            n == a.len(),
            i <= n,
            acc@ == fx_total(raws(a@).take(i as int)),
        decreases n - i,
    {
        proof {
            let longer = raws(a@).take(i + 1);
            assert(longer.drop_last() =~= raws(a@).take(i as int));
            assert(longer.last() == a@[i as int]@);
        }
        acc = acc.plus(a[i]);
        i = i + 1;
    }
    assert(raws(a@).take(n as int) =~= raws(a@));
    acc
}

/// The mean of a buffer.
pub fn mean(a: &Vec<Fixed>) -> (r: Fixed)
    ensures
        r@ == fx_mean(raws(a@)),
{
    total(a).over(Fixed::from_count(a.len()))
}

/// A dot product of `count` terms that walks `a` from `a0` by `a_step` and
/// `b` from `b0` by `b_step`.
pub fn dot(
    a: &Vec<Fixed>,
    a0: usize,
    a_step: usize,
    b: &Vec<Fixed>,
    b0: usize,
    b_step: usize,
    count: usize,
) -> (r: Fixed)
    requires
        count > 0 ==> a0 + (count - 1) * a_step < a.len(),
        count > 0 ==> b0 + (count - 1) * b_step < b.len(),
    ensures
        r@ == strided_dot(
            raws(a@),
            a0 as int,
            a_step as int,
            raws(b@),
            b0 as int,
            b_step as int,
            count as nat,
        ),
{
    let mut acc: Fixed = Fixed::zero();
    let mut t: usize = 0;
    while t < count
        invariant
            t <= count,
            count > 0 ==> a0 + (count - 1) * a_step < a.len(),
            count > 0 ==> b0 + (count - 1) * b_step < b.len(),
            acc@ == strided_dot(
                raws(a@),
                a0 as int,
                a_step as int,
                raws(b@),
                b0 as int,
                b_step as int,
                t as nat,
            ),
        decreases count - t,
    {
        assert(0 <= t * a_step <= (count - 1) * a_step) by (nonlinear_arith)
            requires
                0 <= t <= count - 1,
                0 <= a_step,
        ;
        assert(0 <= t * b_step <= (count - 1) * b_step) by (nonlinear_arith)
            requires
                0 <= t <= count - 1,
                0 <= b_step,
        ;
        let ia: usize = a0 + t * a_step;
        let ib: usize = b0 + t * b_step;
        acc = acc.plus(a[ia].times(b[ib]));
        t = t + 1;
    }
    acc
}

/// A total of `count` terms that walks `a` from `a0` by `a_step`.
pub fn stride_total(a: &Vec<Fixed>, a0: usize, a_step: usize, count: usize) -> (r: Fixed)
    requires
        count > 0 ==> a0 + (count - 1) * a_step < a.len(),
    ensures
        r@ == strided_total(raws(a@), a0 as int, a_step as int, count as nat),
{
    let mut acc: Fixed = Fixed::zero();
    let mut t: usize = 0;
    while t < count
        invariant
            t <= count,
            count > 0 ==> a0 + (count - 1) * a_step < a.len(),
            acc@ == strided_total(raws(a@), a0 as int, a_step as int, t as nat),
        decreases count - t,
    {
        assert(0 <= t * a_step <= (count - 1) * a_step) by (nonlinear_arith)
            requires
                0 <= t <= count - 1,
                0 <= a_step,
        ;
        let ia: usize = a0 + t * a_step;
        acc = acc.plus(a[ia]);
        t = t + 1;
    }
    acc
}

/// A buffer of `n` copies of `v`.
pub fn fill(n: usize, v: Fixed) -> (out: Vec<Fixed>)
    ensures
        raws(out@) == seq_fill(n as nat, v@),
{
    let mut out: Vec<Fixed> = Vec::new();
    let mut i: usize = 0;
    while i < n
        invariant
            i <= n,
            out.len() == i,
            forall|j: int| 0 <= j < i ==> out@[j]@ == v@,
        decreases n - i,
    {
        out.push(v);
        i = i + 1;
    }
    assert(raws(out@) =~= seq_fill(n as nat, v@));
    out
}

/// `row` added to every row of `a`.
pub fn add_row(a: &Vec<Fixed>, row: &Vec<Fixed>) -> (out: Vec<Fixed>)
    requires
        row.len() > 0 || a.len() == 0,
    ensures
        raws(out@) == seq_add_row(raws(a@), raws(row@)),
{
    let n: usize = a.len();
    let m: usize = row.len();
    let mut out: Vec<Fixed> = Vec::new();
    let mut i: usize = 0;
    while i < n
        invariant
            n == a.len(),
            m == row.len(),
            m > 0 || n == 0,
            i <= n,
            out.len() == i,
            forall|j: int| 0 <= j < i ==> out@[j]@ == fx_sum(a@[j]@, row@[j % (m as int)]@),
        decreases n - i,
    {
        out.push(a[i].plus(row[i % m]));
        i = i + 1;
    }
    assert(raws(out@) =~= seq_add_row(raws(a@), raws(row@)));
    out
}

/// The totals of the `cols` columns of a buffer of `rows` rows.
pub fn totals_by_column(a: &Vec<Fixed>, rows: usize, cols: usize) -> (out: Vec<Fixed>)
    requires
        rows * cols == a.len(),
    ensures
        raws(out@) == column_totals(raws(a@), rows as nat, cols as nat),
{
    let mut out: Vec<Fixed> = Vec::new();
    let mut j: usize = 0;
    while j < cols
        invariant
            rows * cols == a.len(),
            j <= cols,
            out.len() == j,
            forall|c: int|
                0 <= c < j ==> out@[c]@ == strided_total(
                    raws(a@),
                    c,
                    cols as int,
                    rows as nat,
                ),
        decreases cols - j,
    {
        proof {
            if rows > 0 {
                lemma_flat_index(rows - 1, j as int, rows as int, cols as int);
                assert((rows - 1) * cols + j == j + (rows - 1) * cols);
            }
        }
        out.push(stride_total(a, j, cols, rows));
        j = j + 1;
    }
    assert(raws(out@) =~= column_totals(raws(a@), rows as nat, cols as nat));
    out
}

/// A grid of `rows` by `cols` dot products of `count` terms each, stored
/// row by row, where `wa` says how each walks `a` and `wb` how it walks `b`.
pub fn grid(
    a: &Vec<Fixed>,
    wa: Walk,
    b: &Vec<Fixed>,
    wb: Walk,
    rows: usize,
    cols: usize,
    count: usize,
) -> (out: Vec<Fixed>)
    requires
        rows * cols <= usize::MAX,
        wa.fits(a.len() as nat, rows as nat, cols as nat, count as nat),
        wb.fits(b.len() as nat, rows as nat, cols as nat, count as nat),
    ensures
        raws(out@) == grid_dot(
            raws(a@),
            wa,
            raws(b@),
            wb,
            rows as nat,
            cols as nat,
            count as nat,
        ),
{
    let mut out: Vec<Fixed> = Vec::new();
    let mut r: usize = 0;
    assert(0 * cols == 0);
    while r < rows
        invariant
            rows * cols <= usize::MAX,
            wa.fits(a.len() as nat, rows as nat, cols as nat, count as nat),
            wb.fits(b.len() as nat, rows as nat, cols as nat, count as nat),
            r <= rows,
            out.len() == r * cols,
            forall|i: int|
                0 <= i < out.len() ==> out@[i]@ == strided_dot(
                    raws(a@),
                    wa.start(i / (cols as int), i % (cols as int)),
                    wa.step as int,
                    raws(b@),
                    wb.start(i / (cols as int), i % (cols as int)),
                    wb.step as int,
                    count as nat,
                ),
        decreases rows - r,
    {
        let mut c: usize = 0;
        while c < cols
            invariant
                rows * cols <= usize::MAX,
                wa.fits(a.len() as nat, rows as nat, cols as nat, count as nat),
                wb.fits(b.len() as nat, rows as nat, cols as nat, count as nat),
                r < rows,
                c <= cols,
                out.len() == r * cols + c,
                forall|i: int|
                    0 <= i < out.len() ==> out@[i]@ == strided_dot(
                        raws(a@),
                        wa.start(i / (cols as int), i % (cols as int)),
                        wa.step as int,
                        raws(b@),
                        wb.start(i / (cols as int), i % (cols as int)),
                        wb.step as int,
                        count as nat,
                    ),
            decreases cols - c,
        {
            proof {
                lemma_flat_index(r as int, c as int, rows as int, cols as int);
            }
            let entry: Fixed = if count == 0 {
                Fixed::zero()
            } else {
                proof {
                    lemma_walk_index(
                        wa,
                        a.len() as nat,
                        rows as nat,
                        cols as nat,
                        count as nat,
                        r as int,
                        c as int,
                        count - 1,
                    );
                    lemma_walk_index(
                        wb,
                        b.len() as nat,
                        rows as nat,
                        cols as nat,
                        count as nat,
                        r as int,
                        c as int,
                        count - 1,
                    );
                }
                let a0: usize = r * wa.row + c * wa.col;
                let b0: usize = r * wb.row + c * wb.col;
                dot(a, a0, wa.step, b, b0, wb.step, count)
            };
            out.push(entry);
            c = c + 1;
        }
        assert(r * cols + cols == (r + 1) * cols) by (nonlinear_arith);
        r = r + 1;
    }
    assert(out.len() == rows * cols);
    assert(raws(out@) =~= grid_dot(
        raws(a@),
        wa,
        raws(b@),
        wb,
        rows as nat,
        cols as nat,
        count as nat,
    ));
    out
}

} // verus!
