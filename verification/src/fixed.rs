//! Signed fixed-point numbers with 32 fractional bits.
//!
//! A number is stored as a 64-bit count of units of 2^-32. Every operation
//! is total: results that leave the representable range saturate at the
//! nearest bound, and products and quotients round toward zero.

use vstd::prelude::*;

verus! {

/// The raw count that stands for the value one.
pub const ONE_RAW: i64 = 0x1_0000_0000;

/// `x` brought into the range of raw counts.
pub open spec fn saturate(x: int) -> int {
    if x < i64::MIN as int {
        i64::MIN as int
    } else if x > i64::MAX as int {
        i64::MAX as int
    } else {
        x
    }
}

/// The absolute value of `x`.
pub open spec fn magnitude(x: int) -> int {
    if x < 0 {
        -x
    } else {
        x
    }
}

/// `m` with a minus sign when `negative` holds.
pub open spec fn with_sign(negative: bool, m: int) -> int {
    if negative {
        -m
    } else {
        m
    }
}

/// Raw count of the saturating sum.
pub open spec fn fx_sum(a: int, b: int) -> int {
    saturate(a + b)
}

/// Raw count of the saturating difference.
pub open spec fn fx_diff(a: int, b: int) -> int {
    saturate(a - b)
}

/// Raw count of the saturating negation.
pub open spec fn fx_neg(a: int) -> int {
    saturate(-a)
}

/// Raw count of the product: the magnitudes are multiplied, the 32 lowest
/// bits are dropped, the sign is restored and the result saturates.
pub open spec fn fx_prod(a: int, b: int) -> int {
    saturate(with_sign((a < 0) != (b < 0), (magnitude(a) * magnitude(b)) / (ONE_RAW as int)))
}

/// Raw count of the quotient, rounded toward zero. Division by zero
/// saturates in the direction of the dividend's sign; zero by zero is zero.
pub open spec fn fx_quot(a: int, b: int) -> int {
    if b == 0 {
        if a > 0 {
            i64::MAX as int
        } else if a < 0 {
            i64::MIN as int
        } else {
            0
        }
    } else {
        saturate(with_sign((a < 0) != (b < 0), (magnitude(a) * (ONE_RAW as int)) / magnitude(b)))
    }
}

/// `s` is the integer square root of `n`, rounded down.
pub open spec fn is_floor_sqrt(n: int, s: int) -> bool {
    0 <= s && s * s <= n < (s + 1) * (s + 1)
}

/// The integer square root of `n`, rounded down.
pub open spec fn floor_sqrt(n: int) -> int {
    choose|s: int| is_floor_sqrt(n, s)
}

/// Raw count of the square root, rounded down. Zero for anything that is
/// not positive.
pub open spec fn fx_sqrt(a: int) -> int {
    if a <= 0 {
        0
    } else {
        floor_sqrt(a * (ONE_RAW as int))
    }
}

/// Raw count of the whole number `n`.
pub open spec fn fx_whole(n: int) -> int {
    saturate(n * (ONE_RAW as int))
}

/// Raw count of `a` raised to the power `n`, multiplied up from the left.
pub open spec fn fx_pow(a: int, n: nat) -> int
    decreases n,
{
    if n == 0 {
        ONE_RAW as int
    } else if n == 1 {
        a
    } else {
        fx_prod(fx_pow(a, (n - 1) as nat), a)
    }
}

/// At most one number is the rounded-down square root of `n`.
pub proof fn lemma_floor_sqrt_unique(n: int, s: int, t: int)
    requires
        is_floor_sqrt(n, s),
        is_floor_sqrt(n, t),
    ensures
        s == t,
{
    if s < t {
        assert((s + 1) * (s + 1) <= t * t) by (nonlinear_arith)
            requires
                0 <= s + 1 <= t,
        ;
    }
    if t < s {
        assert((t + 1) * (t + 1) <= s * s) by (nonlinear_arith)
            requires
                0 <= t + 1 <= s,
        ;
    }
}

/// A rounded-down square root that was found is the one `floor_sqrt` names.
pub proof fn lemma_floor_sqrt_is(n: int, s: int)
    requires
        is_floor_sqrt(n, s),
    ensures
        floor_sqrt(n) == s,
{
    lemma_floor_sqrt_unique(n, s, floor_sqrt(n));
}

/// One times a number is that number.
pub proof fn lemma_one_times(b: int)
    requires
        i64::MIN <= b <= i64::MAX,
    ensures
        fx_prod(ONE_RAW as int, b) == b,
{
    let m = magnitude(b);
    assert((0x1_0000_0000 * m) / 0x1_0000_0000 == m) by (nonlinear_arith);
}

/// A fixed-point number: `raw` counts units of 2^-32.
#[derive(Clone, Copy, Debug, PartialEq, Eq, Structural)]
pub struct Fixed {
    pub raw: i64,
}

impl View for Fixed {
    type V = int;

    open spec fn view(&self) -> int {
        self.raw as int
    }
}

fn clamp(x: i128) -> (r: i64)
    ensures
        r as int == saturate(x as int),
{
    if x < -0x8000_0000_0000_0000i128 {
        i64::MIN
    } else if x > 0x7fff_ffff_ffff_ffffi128 {
        i64::MAX
    } else {
        x as i64
    }
}

fn abs_wide(x: i64) -> (m: u128)
    ensures
        m as int == magnitude(x as int),
        m <= 0x8000_0000_0000_0000u128,
{
    if x < 0 {
        let wide: i128 = -(x as i128);
        wide as u128
    } else {
        x as u128
    }
}

fn clamp_signed(negative: bool, m: u128) -> (r: i64)
    ensures
        r as int == saturate(with_sign(negative, m as int)),
{
    if negative {
        if m >= 0x8000_0000_0000_0000u128 {
            i64::MIN
        } else {
            let narrow: i64 = m as i64;
            -narrow
        }
    } else {
        if m > 0x7fff_ffff_ffff_ffffu128 {
            i64::MAX
        } else {
            m as i64
        }
    }
}

/// The rounded-down square root of `n`.
fn floor_sqrt_wide(n: u128) -> (s: u128)
    requires
        n < 0x1_0000_0000_0000_0000_0000_0000u128,
    ensures
        is_floor_sqrt(n as int, s as int),
        s < 0x1_0000_0000_0000u128,
{
    let mut lo: u128 = 0;
    let mut hi: u128 = 0x1_0000_0000_0000u128;
    assert(hi * hi > n) by (nonlinear_arith)
        requires
            hi == 0x1_0000_0000_0000u128,
            n < 0x1_0000_0000_0000_0000_0000_0000u128,
    ;
    while hi - lo > 1
        invariant
            lo < hi <= 0x1_0000_0000_0000u128,
            lo * lo <= n < hi * hi,
        decreases hi - lo,
    {
        let mid: u128 = lo + (hi - lo) / 2;
        assert(mid * mid <= 0x1_0000_0000_0000_0000_0000_0000u128) by (nonlinear_arith)
            requires
                mid <= 0x1_0000_0000_0000u128,
        ;
        if mid * mid <= n {
            lo = mid;
        } else {
            hi = mid;
        }
    }
    lo
}

impl Fixed {
    /// The number with the given raw count.
    pub fn from_raw(raw: i64) -> (r: Fixed)
        ensures
            r@ == raw,
    {
        Fixed { raw }
    }

    /// The raw count of this number.
    pub fn raw(self) -> (r: i64)
        ensures
            r == self@,
    {
        self.raw
    }

    /// Zero.
    pub fn zero() -> (r: Fixed)
        ensures
            r@ == 0,
    {
        Fixed { raw: 0 }
    }

    /// One.
    pub fn one() -> (r: Fixed)
        ensures
            r@ == ONE_RAW,
    {
        Fixed { raw: ONE_RAW }
    }

    /// The whole number `n`, saturated.
    pub fn from_int(n: i64) -> (r: Fixed)
        ensures
            r@ == fx_whole(n as int),
    {
        let wide: i128 = (n as i128) * 0x1_0000_0000i128;
        Fixed { raw: clamp(wide) }
    }

    /// The count `n` as a number, saturated.
    pub fn from_count(n: usize) -> (r: Fixed)
        ensures
            r@ == fx_whole(n as int),
    {
        let wide: u128 = (n as u128) * 0x1_0000_0000u128;
        Fixed { raw: clamp_signed(false, wide) }
    }

    /// The quotient of the whole numbers `num` and `den`.
    pub fn from_ratio(num: i64, den: i64) -> (r: Fixed)
        ensures
            r@ == fx_quot(fx_whole(num as int), fx_whole(den as int)),
    {
        Fixed::from_int(num).over(Fixed::from_int(den))
    }

    /// The saturating sum.
    pub fn plus(self, rhs: Fixed) -> (r: Fixed)
        ensures
            r@ == fx_sum(self@, rhs@),
    {
        let wide: i128 = (self.raw as i128) + (rhs.raw as i128);
        Fixed { raw: clamp(wide) }
    }

    /// The saturating difference.
    pub fn minus(self, rhs: Fixed) -> (r: Fixed)
        ensures
            r@ == fx_diff(self@, rhs@),
    {
        let wide: i128 = (self.raw as i128) - (rhs.raw as i128);
        Fixed { raw: clamp(wide) }
    }

    /// The saturating negation.
    pub fn neg(self) -> (r: Fixed)
        ensures
            r@ == fx_neg(self@),
    {
        let wide: i128 = -(self.raw as i128);
        Fixed { raw: clamp(wide) }
    }

    /// The product, rounded toward zero and saturated.
    pub fn times(self, rhs: Fixed) -> (r: Fixed)
        ensures
            r@ == fx_prod(self@, rhs@),
    {
        let ma: u128 = abs_wide(self.raw);
        let mb: u128 = abs_wide(rhs.raw);
        assert(ma * mb <= 0x4000_0000_0000_0000_0000_0000_0000_0000u128) by (nonlinear_arith)
            requires
                ma <= 0x8000_0000_0000_0000u128,
                mb <= 0x8000_0000_0000_0000u128,
        ;
        let q: u128 = (ma * mb) / 0x1_0000_0000u128;
        Fixed { raw: clamp_signed((self.raw < 0) != (rhs.raw < 0), q) }
    }

    /// The quotient, rounded toward zero and saturated.
    pub fn over(self, rhs: Fixed) -> (r: Fixed)
        ensures
            r@ == fx_quot(self@, rhs@),
    {
        if rhs.raw == 0 {
            if self.raw > 0 {
                Fixed { raw: i64::MAX }
            } else if self.raw < 0 {
                Fixed { raw: i64::MIN }
            } else {
                Fixed { raw: 0 }
            }
        } else {
            let ma: u128 = abs_wide(self.raw);
            let mb: u128 = abs_wide(rhs.raw);
            let q: u128 = (ma * 0x1_0000_0000u128) / mb;
            Fixed { raw: clamp_signed((self.raw < 0) != (rhs.raw < 0), q) }
        }
    }

    /// The square root, rounded down; zero for anything that is not positive.
    pub fn sqrt(self) -> (r: Fixed)
        ensures
            r@ == fx_sqrt(self@),
    {
        if self.raw <= 0 {
            Fixed { raw: 0 }
        } else {
            let n: u128 = (self.raw as u128) * 0x1_0000_0000u128;
            let s: u128 = floor_sqrt_wide(n);
            proof {
                lemma_floor_sqrt_is(n as int, s as int);
            }
            Fixed { raw: s as i64 }
        }
    }

    /// This number raised to the power `n`.
    pub fn pow(self, n: u32) -> (r: Fixed)
        ensures
            r@ == fx_pow(self@, n as nat),
    {
        if n == 0 {
            return Fixed::one();
        }
        let mut acc: Fixed = self;
        let mut i: u32 = 1;
        while i < n
            invariant
                1 <= i <= n,
                acc@ == fx_pow(self@, i as nat),
            decreases n - i,
        {
            acc = acc.times(self);
            i = i + 1;
        }
        acc
    }
}

} // verus!
