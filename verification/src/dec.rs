use vstd::prelude::*;

verus! {

/// Largest scale a decimal may carry: digits after the decimal point.
pub const MAX_SCALE: u32 = 28;

/// Largest magnitude a decimal mantissa may carry.
pub const MAX_MANTISSA: i128 = 79228162514264337593543950335;

/// A fixed-point decimal number: the value `mantissa / 10^scale`.
///
/// The bounds on the two fields are those of the 96-bit decimal
/// representation the engine computes with, so every well-formed `Dec`
/// denotes a value the engine can hold.
#[derive(Clone, Copy, PartialEq, Eq, Structural, Debug)]
pub struct Dec {
    /// The digits of the number, as a signed integer.
    pub mantissa: i128,
    /// How many of the mantissa's trailing digits lie after the decimal
    /// point.
    pub scale: u32,
}

/// Ten to the power `e`.
pub open spec fn pow10(e: nat) -> int
    decreases e,
{
    if e == 0 {
        1
    } else {
        10 * pow10((e - 1) as nat)
    }
}

pub proof fn lemma_pow10_positive(e: nat)
    ensures
        pow10(e) >= 1,
    decreases e,
{
    if e > 0 {
        lemma_pow10_positive((e - 1) as nat);
    }
}

pub proof fn lemma_pow10_increases(a: nat, b: nat)
    requires
        a <= b,
    ensures
        pow10(a) <= pow10(b),
    decreases b,
{
    if a < b {
        lemma_pow10_increases(a, (b - 1) as nat);
        lemma_pow10_positive((b - 1) as nat);
    }
}

/// The concrete value of ten to the largest scale, for overflow bounds.
pub proof fn lemma_pow10_value()
    ensures
        pow10(MAX_SCALE as nat) == 10000000000000000000000000000,
{
    reveal_with_fuel(pow10, 29);
}

/// Bound on the product of a small integer and a power of ten.
pub proof fn lemma_small_mul_bound(n: int, p: int)
    requires
        -1000 <= n <= 1000,
        1 <= p <= 10000000000000000000000000000,
    ensures
        -10000000000000000000000000000000 <= n * p <= 10000000000000000000000000000000,
{
    assert(-10000000000000000000000000000000 <= n * p <= 10000000000000000000000000000000)
        by (nonlinear_arith)
        requires
            -1000 <= n <= 1000,
            1 <= p <= 10000000000000000000000000000,
    ;
}

impl Dec {
    /// Well-formedness: the fields lie within the engine's representation.
    pub open spec fn wf(self) -> bool {
        self.scale <= MAX_SCALE && -MAX_MANTISSA <= self.mantissa <= MAX_MANTISSA
    }

    /// The value `self` denotes is strictly greater than the integer `n`.
    pub open spec fn spec_gt_int(self, n: int) -> bool {
        self.mantissa > n * pow10(self.scale as nat)
    }

    /// The value `self` denotes is strictly less than the integer `n`.
    pub open spec fn spec_lt_int(self, n: int) -> bool {
        self.mantissa < n * pow10(self.scale as nat)
    }

    /// The value `self` denotes is at most the integer `n`.
    pub open spec fn spec_le_int(self, n: int) -> bool {
        self.mantissa <= n * pow10(self.scale as nat)
    }

    /// A decimal with the given mantissa and scale, denoting
    /// `mantissa / 10^scale`.
    pub fn new(mantissa: i64, scale: u32) -> (r: Dec)
        requires
            scale <= MAX_SCALE,
        ensures
            r.mantissa == mantissa as int,
            r.scale == scale,
            r.wf(),
    {
        Dec { mantissa: mantissa as i128, scale }
    }

    /// Whether the value of `self` is strictly greater than `n`.
    pub fn gt_int(&self, n: i64) -> (r: bool)
        requires
            self.wf(),
            -1000 <= n <= 1000,
        ensures
            r == self.spec_gt_int(n as int),
    {
        let p = pow10_i128(self.scale);
        proof {
            lemma_pow10_positive(self.scale as nat);
            lemma_pow10_increases(self.scale as nat, MAX_SCALE as nat);
            lemma_pow10_value();
            lemma_small_mul_bound(n as int, p as int);
        }
        self.mantissa > (n as i128) * p
    }

    /// Whether the value of `self` is strictly less than `n`.
    pub fn lt_int(&self, n: i64) -> (r: bool)
        requires
            self.wf(),
            -1000 <= n <= 1000,
        ensures
            r == self.spec_lt_int(n as int),
    {
        let p = pow10_i128(self.scale);
        proof {
            lemma_pow10_positive(self.scale as nat);
            lemma_pow10_increases(self.scale as nat, MAX_SCALE as nat);
            lemma_pow10_value();
            lemma_small_mul_bound(n as int, p as int);
        }
        self.mantissa < (n as i128) * p
    }

    /// Whether the value of `self` is at most `n`.
    pub fn le_int(&self, n: i64) -> (r: bool)
        requires
            self.wf(),
            -1000 <= n <= 1000,
        ensures
            r == self.spec_le_int(n as int),
    {
        let p = pow10_i128(self.scale);
        proof {
            lemma_pow10_positive(self.scale as nat);
            lemma_pow10_increases(self.scale as nat, MAX_SCALE as nat);
            lemma_pow10_value();
            lemma_small_mul_bound(n as int, p as int);
        }
        self.mantissa <= (n as i128) * p
    }
}

/// Ten to the power `e`, computed for the scales a decimal may carry.
fn pow10_i128(e: u32) -> (r: i128)
    requires
        e <= MAX_SCALE,
    ensures
        r == pow10(e as nat),
{
    let mut r: i128 = 1;
    let mut i: u32 = 0;
    while i < e
        invariant
            i <= e <= MAX_SCALE,
            r == pow10(i as nat),
        decreases e - i,
    {
        proof {
            lemma_pow10_increases((i + 1) as nat, MAX_SCALE as nat);
            lemma_pow10_value();
            lemma_pow10_positive(i as nat);
        }
        r = r * 10;
        i = i + 1;
    }
    r
}

} // verus!
