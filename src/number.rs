use vstd::prelude::*;
use crate::error::EvalError;

verus! {

/// Whether an integer fits in an `i64`.
pub open spec fn fits(n: int) -> bool {
    i64::MIN <= n <= i64::MAX
}

/// Remainder of a division that truncates toward zero: the sign follows `p`.
pub open spec fn trunc_rem(p: int, q: int) -> int
    recommends
        q != 0,
{
    let m = if q < 0 { -q } else { q };
    if p >= 0 { p % m } else { -((-p) % m) }
}

/// The greatest common divisor, by Euclid's algorithm.
pub open spec fn gcd(a: nat, b: nat) -> nat
    decreases b,
{
    if b == 0 {
        a
    } else {
        gcd(b, a % b)
    }
}

/// The absolute value.
pub open spec fn abs(n: int) -> nat {
    if n < 0 {
        (-n) as nat
    } else {
        n as nat
    }
}

proof fn lemma_gcd_positive(a: nat, b: nat)
    requires
        b > 0,
    ensures
        0 < gcd(a, b) <= b,
    decreases b,
{
    if a % b != 0 {
        lemma_gcd_positive(b, a % b);
    } else {
        assert(gcd(b, 0) == b);
    }
}

proof fn lemma_gcd_divides(a: nat, b: nat)
    requires
        b > 0,
    ensures
        a == gcd(a, b) * (a as int / gcd(a, b) as int),
        b == gcd(a, b) * (b as int / gcd(a, b) as int),
    decreases b,
{
    let g = gcd(a, b) as int;
    let q = a as int / b as int;
    let r = a as int % b as int;
    vstd::arithmetic::div_mod::lemma_fundamental_div_mod(a as int, b as int);
    if r == 0 {
        assert(gcd(b, 0) == b);
        vstd::arithmetic::div_mod::lemma_div_multiples_vanish(1, b as int);
        assert(b as int * 1 == b);
    } else {
        lemma_gcd_divides(b, r as nat);
        lemma_gcd_positive(b, r as nat);
        let kb = b as int / g;
        let kr = r / g;
        assert(a == g * (kb * q + kr)) by (nonlinear_arith)
            requires
                a == b * q + r,
                b == g * kb,
                r == g * kr,
        ;
        vstd::arithmetic::div_mod::lemma_div_multiples_vanish(kb * q + kr, g);
    }
}

proof fn lemma_div_positive(d: nat, g: nat)
    requires
        1 <= g <= d,
    ensures
        d / g >= 1,
{
    assert(d / g >= 1) by (nonlinear_arith)
        requires
            1 <= g <= d,
    ;
}

proof fn lemma_div_le(x: nat, g: nat)
    requires
        g >= 1,
    ensures
        x / g <= x,
{
    assert(x / g <= x) by (nonlinear_arith)
        requires
            g >= 1,
    ;
}

fn euclid(a: u128, b: u128) -> (g: u128)
    ensures
        g == gcd(a as nat, b as nat),
{
    let mut x = a;
    let mut y = b;
    while y != 0
        invariant
            gcd(x as nat, y as nat) == gcd(a as nat, b as nat),
        decreases y,
    {
        let t = x % y;
        x = y;
        y = t;
    }
    x
}

proof fn lemma_mul_bound(a: int, b: int)
    requires
        -0x8000_0000_0000_0000 <= a <= 0x8000_0000_0000_0000,
        -0x8000_0000_0000_0000 <= b <= 0x8000_0000_0000_0000,
    ensures
        -0x4000_0000_0000_0000_0000_0000_0000_0000 <= a * b <= 0x4000_0000_0000_0000_0000_0000_0000_0000,
{
    assert(-0x4000_0000_0000_0000_0000_0000_0000_0000 <= a * b <= 0x4000_0000_0000_0000_0000_0000_0000_0000)
        by (nonlinear_arith)
        requires
            -0x8000_0000_0000_0000 <= a <= 0x8000_0000_0000_0000,
            -0x8000_0000_0000_0000 <= b <= 0x8000_0000_0000_0000,
    ;
}

proof fn lemma_mul_den_bound(a: int, b: int)
    requires
        -0x8000_0000_0000_0000 <= a <= 0x8000_0000_0000_0000,
        0 <= b <= 0x7fff_ffff_ffff_ffff,
    ensures
        -0x3fff_ffff_ffff_ffff_8000_0000_0000_0000 <= a * b <= 0x3fff_ffff_ffff_ffff_8000_0000_0000_0000,
{
    assert(-0x3fff_ffff_ffff_ffff_8000_0000_0000_0000 <= a * b <= 0x3fff_ffff_ffff_ffff_8000_0000_0000_0000)
        by (nonlinear_arith)
        requires
            -0x8000_0000_0000_0000 <= a <= 0x8000_0000_0000_0000,
            0 <= b <= 0x7fff_ffff_ffff_ffff,
    ;
}

proof fn lemma_pos_mul(a: int, b: int)
    requires
        a > 0,
        b > 0,
    ensures
        a * b > 0,
{
    assert(a * b > 0) by (nonlinear_arith)
        requires
            a > 0,
            b > 0,
    ;
}

/// An exact rational number `num / den` in lowest terms, with a positive
/// denominator.
#[derive(Debug, Clone, Copy, PartialEq, Eq, Structural)]
pub struct Number {
    num: i64,
    den: i64,
}

impl Number {
    #[verifier::type_invariant]
    spec fn positive_den(self) -> bool {
        self.den > 0
    }

    /// The numerator.
    pub closed spec fn numer(self) -> int {
        self.num as int
    }

    /// The denominator.
    pub closed spec fn denom(self) -> int {
        self.den as int
    }

    /// The number `n / d` (for a positive `d`) in lowest terms, or `Overflow`
    /// where a part of the reduced fraction does not fit.
    pub closed spec fn ratio(n: int, d: int) -> Result<Number, EvalError> {
        let g = gcd(abs(n), abs(d)) as int;
        let a = abs(n) as int;
        let rn = if n < 0 { -(a / g) } else { a / g };
        let rd = d / g;
        if fits(rn) && fits(rd) {
            Ok(Number { num: rn as i64, den: rd as i64 })
        } else {
            Err(EvalError::Overflow)
        }
    }

    /// Whether two numbers stand for the same rational value.
    pub open spec fn same_value(self, o: Number) -> bool {
        self.numer() * o.denom() == o.numer() * self.denom()
    }

    /// Whether `self` is strictly smaller than `o`.
    pub open spec fn less_spec(self, o: Number) -> bool {
        self.numer() * o.denom() < o.numer() * self.denom()
    }

    pub open spec fn add_spec(self, o: Number) -> Result<Number, EvalError> {
        Number::ratio(self.numer() * o.denom() + o.numer() * self.denom(), self.denom() * o.denom())
    }

    pub open spec fn sub_spec(self, o: Number) -> Result<Number, EvalError> {
        Number::ratio(self.numer() * o.denom() - o.numer() * self.denom(), self.denom() * o.denom())
    }

    pub open spec fn mul_spec(self, o: Number) -> Result<Number, EvalError> {
        Number::ratio(self.numer() * o.numer(), self.denom() * o.denom())
    }

    pub open spec fn div_spec(self, o: Number) -> Result<Number, EvalError> {
        if o.numer() == 0 {
            Err(EvalError::DivisionByZero)
        } else if o.numer() < 0 {
            Number::ratio(-(self.numer() * o.denom()), -(self.denom() * o.numer()))
        } else {
            Number::ratio(self.numer() * o.denom(), self.denom() * o.numer())
        }
    }

    /// The remainder of `self / o` truncated toward zero, as `f64`'s `%` has it.
    pub open spec fn rem_spec(self, o: Number) -> Result<Number, EvalError> {
        if o.numer() == 0 {
            Err(EvalError::DivisionByZero)
        } else {
            Number::ratio(
                trunc_rem(self.numer() * o.denom(), o.numer() * self.denom()),
                self.denom() * o.denom(),
            )
        }
    }

    pub open spec fn neg_spec(self) -> Result<Number, EvalError> {
        Number::ratio(-self.numer(), self.denom())
    }

    /// A successful `ratio(n, d)` stands for the value `n / d`.
    pub proof fn lemma_ratio_value(n: int, d: int)
        requires
            d > 0,
            Number::ratio(n, d) is Ok,
        ensures
            Number::ratio(n, d)->Ok_0.numer() * d == n * Number::ratio(n, d)->Ok_0.denom(),
            Number::ratio(n, d)->Ok_0.denom() > 0,
    {
        let a = abs(n);
        lemma_gcd_positive(a, abs(d));
        lemma_gcd_divides(a, abs(d));
        let g = gcd(a, abs(d)) as int;
        let ka = a as int / g;
        let kd = d / g;
        lemma_div_positive(d as nat, g as nat);
        let r = Number::ratio(n, d)->Ok_0;
        if n < 0 {
            assert(r.numer() == -ka);
            assert(-ka * d == n * kd) by (nonlinear_arith)
                requires
                    a == g * ka,
                    d == g * kd,
                    n == -a,
            ;
        } else {
            assert(r.numer() == ka);
            assert(ka * d == n * kd) by (nonlinear_arith)
                requires
                    a == g * ka,
                    d == g * kd,
                    n == a,
            ;
        }
    }

    /// The integer `n`.
    pub fn from_int(n: i64) -> (r: Number)
        ensures
            r.numer() == n,
            r.denom() == 1,
            Number::ratio(n as int, 1) == Ok::<Number, EvalError>(r),
    {
        assert(abs(n as int) % 1 == 0);
        assert(gcd(1, 0) == 1);
        assert(gcd(abs(n as int), 1) == 1);
        assert(abs(n as int) as int / 1 == abs(n as int));
        assert(abs(1) == 1);
        assert(1int / 1int == 1);
        Number { num: n, den: 1 }
    }

    /// The fraction `num / den` in lowest terms, if `den` is positive.
    pub fn new(num: i64, den: i64) -> (r: Option<Number>)
        ensures
            r is Some <==> den > 0,
            r is Some ==> Number::ratio(num as int, den as int) == Ok::<Number, EvalError>(r->Some_0),
    {
        if den > 0 {
            proof {
                lemma_gcd_positive(abs(num as int), abs(den as int));
                lemma_div_le(abs(num as int), gcd(abs(num as int), abs(den as int)));
                lemma_div_le(abs(den as int), gcd(abs(num as int), abs(den as int)));
            }
            match Number::from_wide(num as i128, den as i128) {
                Ok(n) => Some(n),
                Err(_) => None,
            }
        } else {
            None
        }
    }

    pub fn numerator(&self) -> (r: i64)
        ensures
            r == self.numer(),
    {
        self.num
    }

    pub fn denominator(&self) -> (r: i64)
        ensures
            r == self.denom(),
            r > 0,
    {
        proof {
            use_type_invariant(self);
        }
        self.den
    }

    fn from_wide(n: i128, d: i128) -> (r: Result<Number, EvalError>)
        requires
            d > 0,
            n > i128::MIN,
        ensures
            r == Number::ratio(n as int, d as int),
    {
        let a: u128 = if n < 0 { (-n) as u128 } else { n as u128 };
        let g = euclid(a, d as u128);
        proof {
            lemma_gcd_positive(a as nat, d as nat);
            lemma_div_le(a as nat, g as nat);
            lemma_div_le(d as nat, g as nat);
            lemma_div_positive(d as nat, g as nat);
        }
        let an = a / g;
        let rd = (d as u128) / g;
        if rd > i64::MAX as u128 {
            return Err(EvalError::Overflow);
        }
        if n < 0 {
            if an > 0x8000_0000_0000_0000u128 {
                Err(EvalError::Overflow)
            } else {
                Ok(Number { num: (-(an as i128)) as i64, den: rd as i64 })
            }
        } else {
            if an > i64::MAX as u128 {
                Err(EvalError::Overflow)
            } else {
                Ok(Number { num: an as i64, den: rd as i64 })
            }
        }
    }

    pub fn same(&self, o: &Number) -> (r: bool)
        ensures
            r == self.same_value(*o),
    {
        proof {
            lemma_mul_bound(self.num as int, o.den as int);
            lemma_mul_bound(o.num as int, self.den as int);
        }
        (self.num as i128) * (o.den as i128) == (o.num as i128) * (self.den as i128)
    }

    pub fn less(&self, o: &Number) -> (r: bool)
        ensures
            r == self.less_spec(*o),
    {
        proof {
            lemma_mul_bound(self.num as int, o.den as int);
            lemma_mul_bound(o.num as int, self.den as int);
        }
        (self.num as i128) * (o.den as i128) < (o.num as i128) * (self.den as i128)
    }

    pub fn add(&self, o: &Number) -> (r: Result<Number, EvalError>)
        ensures
            r == self.add_spec(*o),
    {
        proof {
            use_type_invariant(self);
            use_type_invariant(o);
            lemma_mul_den_bound(self.num as int, o.den as int);
            lemma_mul_den_bound(o.num as int, self.den as int);
            lemma_mul_bound(self.den as int, o.den as int);
            lemma_pos_mul(self.den as int, o.den as int);
        }
        let n = (self.num as i128) * (o.den as i128) + (o.num as i128) * (self.den as i128);
        let d = (self.den as i128) * (o.den as i128);
        Number::from_wide(n, d)
    }

    pub fn sub(&self, o: &Number) -> (r: Result<Number, EvalError>)
        ensures
            r == self.sub_spec(*o),
    {
        proof {
            use_type_invariant(self);
            use_type_invariant(o);
            lemma_mul_den_bound(self.num as int, o.den as int);
            lemma_mul_den_bound(o.num as int, self.den as int);
            lemma_mul_bound(self.den as int, o.den as int);
            lemma_pos_mul(self.den as int, o.den as int);
        }
        let n = (self.num as i128) * (o.den as i128) - (o.num as i128) * (self.den as i128);
        let d = (self.den as i128) * (o.den as i128);
        Number::from_wide(n, d)
    }

    pub fn mul(&self, o: &Number) -> (r: Result<Number, EvalError>)
        ensures
            r == self.mul_spec(*o),
    {
        proof {
            use_type_invariant(self);
            use_type_invariant(o);
            lemma_mul_bound(self.num as int, o.num as int);
            lemma_mul_bound(self.den as int, o.den as int);
            lemma_pos_mul(self.den as int, o.den as int);
        }
        let n = (self.num as i128) * (o.num as i128);
        let d = (self.den as i128) * (o.den as i128);
        Number::from_wide(n, d)
    }

    pub fn div(&self, o: &Number) -> (r: Result<Number, EvalError>)
        ensures
            r == self.div_spec(*o),
    {
        proof {
            use_type_invariant(self);
            use_type_invariant(o);
            lemma_mul_bound(self.num as int, o.den as int);
            lemma_mul_bound(self.den as int, o.num as int);
        }
        if o.num == 0 {
            return Err(EvalError::DivisionByZero);
        }
        let n = (self.num as i128) * (o.den as i128);
        let d = (self.den as i128) * (o.num as i128);
        if o.num < 0 {
            proof {
                lemma_pos_mul(self.den as int, -(o.num as int));
                assert(self.den as int * -(o.num as int) == -(self.den as int * o.num as int))
                    by (nonlinear_arith);
            }
            Number::from_wide(-n, -d)
        } else {
            proof {
                lemma_pos_mul(self.den as int, o.num as int);
            }
            Number::from_wide(n, d)
        }
    }

    pub fn rem(&self, o: &Number) -> (r: Result<Number, EvalError>)
        ensures
            r == self.rem_spec(*o),
    {
        proof {
            use_type_invariant(self);
            use_type_invariant(o);
            lemma_mul_den_bound(self.num as int, o.den as int);
            lemma_mul_den_bound(o.num as int, self.den as int);
            lemma_mul_bound(self.den as int, o.den as int);
            lemma_pos_mul(self.den as int, o.den as int);
        }
        if o.num == 0 {
            return Err(EvalError::DivisionByZero);
        }
        let p = (self.num as i128) * (o.den as i128);
        let q = (o.num as i128) * (self.den as i128);
        let m: i128 = if q < 0 { -q } else { q };
        proof {
            if o.num < 0 {
                lemma_pos_mul(-(o.num as int), self.den as int);
                assert(-(o.num as int) * (self.den as int) == -(o.num as int * self.den as int))
                    by (nonlinear_arith);
            } else {
                lemma_pos_mul(o.num as int, self.den as int);
            }
        }
        let r: i128 = if p >= 0 { p % m } else { -((-p) % m) };
        let d = (self.den as i128) * (o.den as i128);
        Number::from_wide(r, d)
    }

    pub fn neg(&self) -> (r: Result<Number, EvalError>)
        ensures
            r == self.neg_spec(),
    {
        proof {
            use_type_invariant(self);
        }
        Number::from_wide(-(self.num as i128), self.den as i128)
    }
}

} // verus!
