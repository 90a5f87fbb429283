//! Numbers without limits: naturals of any size, and the fractions made of them.

use vstd::prelude::*;

verus! {

/// What one digit of a [`Natural`] counts to.
pub const BASE: u64 = 0x1_0000_0000;

/// A natural number of any size, lowest digit first.
#[derive(Debug, PartialEq, Eq)]
pub enum Natural {
    Zero,
    Digit { low: u32, high: Box<Natural> },
}

/// How two numbers compare.
#[derive(Clone, Copy, Debug, PartialEq, Eq, Structural)]
pub enum Rank {
    Below,
    Same,
    Above,
}

impl Rank {
    pub open spec fn of(a: int, b: int) -> Rank {
        if a < b {
            Rank::Below
        } else if a == b {
            Rank::Same
        } else {
            Rank::Above
        }
    }
}

impl Clone for Natural {
    fn clone(&self) -> (n: Self)
        ensures
            n == *self,
        decreases self,
    {
        match self {
            Natural::Zero => Natural::Zero,
            Natural::Digit { low, high } => {
                let rest: Natural = (**high).clone();
                Natural::Digit { low: *low, high: Box::new(rest) }
            },
        }
    }
}

impl Natural {
    pub open spec fn value(self) -> nat
        decreases self,
    {
        match self {
            Natural::Zero => 0,
            Natural::Digit { low, high } => low as nat + BASE as nat * high.value(),
        }
    }

    pub fn new(n: u128) -> (r: Natural)
        ensures
            r.value() == n,
        decreases n,
    {
        if n == 0 {
            Natural::Zero
        } else {
            let low: u32 = (n % (BASE as u128)) as u32;
            let high: Natural = Natural::new(n / (BASE as u128));
            Natural::Digit { low, high: Box::new(high) }
        }
    }

    fn plus_digit(&self, n: u32) -> (r: Natural)
        ensures
            r.value() == self.value() + n,
        decreases self,
    {
        match self {
            Natural::Zero => Natural::new(n as u128),
            Natural::Digit { low, high } => {
                let s: u64 = *low as u64 + n as u64;
                if s < BASE {
                    Natural::Digit { low: s as u32, high: Box::new((**high).clone()) }
                } else {
                    let rest: Natural = high.plus_digit(1);
                    Natural::Digit { low: (s - BASE) as u32, high: Box::new(rest) }
                }
            },
        }
    }

    pub fn plus(&self, other: &Natural) -> (r: Natural)
        ensures
            r.value() == self.value() + other.value(),
        decreases self,
    {
        match (self, other) {
            (Natural::Zero, _) => other.clone(),
            (_, Natural::Zero) => self.clone(),
            (Natural::Digit { low: a, high: x }, Natural::Digit { low: b, high: y }) => {
                let s: u64 = *a as u64 + *b as u64;
                let rest: Natural = x.plus(y);
                if s < BASE {
                    Natural::Digit { low: s as u32, high: Box::new(rest) }
                } else {
                    let more: Natural = rest.plus_digit(1);
                    Natural::Digit { low: (s - BASE) as u32, high: Box::new(more) }
                }
            },
        }
    }

    /// The difference to a number that is no larger.
    pub fn minus(&self, other: &Natural) -> (r: Natural)
        requires
            other.value() <= self.value(),
        ensures
            r.value() == self.value() - other.value(),
        decreases self,
    {
        match (self, other) {
            (Natural::Zero, _) => Natural::Zero,
            (_, Natural::Zero) => self.clone(),
            (Natural::Digit { low: a, high: x }, Natural::Digit { low: b, high: y }) => {
                if *a >= *b {
                    let rest: Natural = x.minus(y);
                    Natural::Digit { low: *a - *b, high: Box::new(rest) }
                } else {
                    let taken: Natural = y.plus_digit(1);
                    let rest: Natural = x.minus(&taken);
                    Natural::Digit { low: (BASE + *a as u64 - *b as u64) as u32, high: Box::new(rest) }
                }
            },
        }
    }

    fn times_digit(&self, k: u32) -> (r: Natural)
        ensures
            r.value() == self.value() * k,
        decreases self,
    {
        match self {
            Natural::Zero => Natural::Zero,
            Natural::Digit { low, high } => {
                let (l, d): (u64, u64) = (*low as u64, k as u64);
                assert(l * d <= 0xffff_ffff * 0xffff_ffff) by (nonlinear_arith)
                    requires
                        l <= 0xffff_ffff,
                        d <= 0xffff_ffff,
                ;
                let p: u64 = l * d;
                let rest: Natural = high.times_digit(k).plus_digit((p / BASE) as u32);
                proof {
                    let h = high.value() as int;
                    assert((l + BASE * h) * d == l * d + BASE * (h * d)) by (nonlinear_arith);
                    assert(p == BASE * (p / BASE) + p % BASE);
                }
                Natural::Digit { low: (p % BASE) as u32, high: Box::new(rest) }
            },
        }
    }

    pub fn times(&self, other: &Natural) -> (r: Natural)
        ensures
            r.value() == self.value() * other.value(),
        decreases other,
    {
        match other {
            Natural::Zero => {
                assert(self.value() * 0 == 0) by (nonlinear_arith);
                Natural::Zero
            },
            Natural::Digit { low, high } => {
                let upper: Natural = self.times(high);
                let shifted: Natural = Natural::Digit { low: 0, high: Box::new(upper) };
                proof {
                    let (s, l, h) = (self.value() as int, *low as int, high.value() as int);
                    assert(s * (l + BASE * h) == s * l + BASE * (s * h)) by (nonlinear_arith);
                }
                self.times_digit(*low).plus(&shifted)
            },
        }
    }

    pub fn is_zero(&self) -> (r: bool)
        ensures
            r == (self.value() == 0),
        decreases self,
    {
        match self {
            Natural::Zero => true,
            Natural::Digit { low, high } => *low == 0 && high.is_zero(),
        }
    }

    pub fn rank(&self, other: &Natural) -> (r: Rank)
        ensures
            r == Rank::of(self.value() as int, other.value() as int),
        decreases self,
    {
        match (self, other) {
            (Natural::Zero, _) => if other.is_zero() {
                Rank::Same
            } else {
                Rank::Below
            },
            (_, Natural::Zero) => if self.is_zero() {
                Rank::Same
            } else {
                Rank::Above
            },
            (Natural::Digit { low: a, high: x }, Natural::Digit { low: b, high: y }) => match x.rank(y) {
                Rank::Same => if *a < *b {
                    Rank::Below
                } else if *a == *b {
                    Rank::Same
                } else {
                    Rank::Above
                },
                other_rank => other_rank,
            },
        }
    }

    pub fn less(&self, other: &Natural) -> (r: bool)
        ensures
            r == (self.value() < other.value()),
    {
        match self.rank(other) {
            Rank::Below => true,
            _ => false,
        }
    }
}

/// `a / b` as a number.
pub open spec fn ratio(a: int, b: int) -> real {
    (a as real) / (b as real)
}

/// Fractions compare as their cross products do.
pub proof fn lemma_ratio_less(a: int, b: int, c: int, d: int)
    requires
        b > 0,
        d > 0,
    ensures
        (ratio(a, b) < ratio(c, d)) == (a * d < c * b),
        (ratio(a, b) == ratio(c, d)) == (a * d == c * b),
{
    let (p, q, r, s) = (a as real, b as real, c as real, d as real);
    lemma_product(a, d);
    lemma_product(c, b);
    assert((p / q < r / s) == (p * s < r * q)) by (nonlinear_arith)
        requires
            q > 0 as real,
            s > 0 as real,
    ;
    assert((p / q == r / s) == (p * s == r * q)) by (nonlinear_arith)
        requires
            q > 0 as real,
            s > 0 as real,
    ;
}

pub proof fn lemma_product(a: int, b: int)
    ensures
        (a * b) as real == (a as real) * (b as real),
{
    let (p, q) = (a as real, b as real);
    assert((a * b) as real == p * q) by (nonlinear_arith)
        requires
            p == a as real,
            q == b as real,
    ;
}

pub proof fn lemma_ratio_sum(a: int, b: int, c: int, d: int)
    requires
        b > 0,
        d > 0,
    ensures
        ratio(a, b) + ratio(c, d) == ratio(a * d + c * b, b * d),
{
    let (p, q, r, s) = (a as real, b as real, c as real, d as real);
    lemma_product(a, d);
    lemma_product(c, b);
    lemma_product(b, d);
    assert(p / q + r / s == (p * s + r * q) / (q * s)) by (nonlinear_arith)
        requires
            q > 0 as real,
            s > 0 as real,
    ;
}

pub proof fn lemma_ratio_same_per(a: int, c: int, b: int)
    requires
        b > 0,
    ensures
        ratio(a, b) + ratio(c, b) == ratio(a + c, b),
{
    let (p, q, r) = (a as real, b as real, c as real);
    assert(p / q + r / q == (p + r) / q) by (nonlinear_arith)
        requires
            q > 0 as real,
    ;
}

pub proof fn lemma_ratio_scale(a: int, b: int, k: int)
    requires
        b > 0,
    ensures
        ratio(a * k, b) == ratio(a, b) * (k as real),
        k > 0 ==> ratio(a, b * k) == ratio(a, b) / (k as real),
{
    let (p, q, r) = (a as real, b as real, k as real);
    lemma_product(a, k);
    lemma_product(b, k);
    assert((p * r) / q == (p / q) * r) by (nonlinear_arith)
        requires
            q > 0 as real,
    ;
    if k > 0 {
        assert(p / (q * r) == (p / q) / r) by (nonlinear_arith)
            requires
                q > 0 as real,
                r > 0 as real,
        ;
    }
}

pub proof fn lemma_ratio_whole(a: int)
    ensures
        ratio(a, 1) == a as real,
{
    let p = a as real;
    assert(p / (1 as real) == p) by (nonlinear_arith);
}

/// The sign of a fraction is that of its numerator.
pub proof fn lemma_ratio_sign(a: int, b: int)
    requires
        b > 0,
    ensures
        (ratio(a, b) > 0 as real) == (a > 0),
        (ratio(a, b) < 0 as real) == (a < 0),
{
    lemma_ratio_less(0, 1, a, b);
    lemma_ratio_less(a, b, 0, 1);
    lemma_ratio_whole(0);
    assert(0 * b == 0 && a * 1 == a) by (nonlinear_arith);
}

/// A fraction that is not negative. It is not reduced: `==` compares how two are
/// written, [`Ratio::less`] what they are worth.
#[derive(Debug, PartialEq, Eq)]
pub struct Ratio {
    num: Natural,
    den: Natural,
}

impl Clone for Ratio {
    fn clone(&self) -> (r: Self)
        ensures
            r == *self,
    {
        proof {
            use_type_invariant(self);
        }
        Ratio { num: self.num.clone(), den: self.den.clone() }
    }
}

impl Ratio {
    #[verifier::type_invariant]
    closed spec fn has_den(self) -> bool {
        self.den.value() > 0
    }

    pub closed spec fn value(self) -> real {
        ratio(self.num.value() as int, self.den.value() as int)
    }

    /// `a / b`.
    pub fn new(a: u128, b: u128) -> (r: Ratio)
        requires
            b > 0,
        ensures
            r.value() == ratio(a as int, b as int),
            r.value() >= 0 as real,
    {
        proof {
            lemma_ratio_sign(a as int, b as int);
        }
        Ratio { num: Natural::new(a), den: Natural::new(b) }
    }

    pub fn whole(a: u128) -> (r: Ratio)
        ensures
            r.value() == a as real,
    {
        proof {
            lemma_ratio_whole(a as int);
        }
        Ratio::new(a, 1)
    }

    /// What stands above and below the line; below it is never 0.
    pub fn parts(&self) -> (r: (&Natural, &Natural))
        ensures
            self.value() == ratio(r.0.value() as int, r.1.value() as int),
            r.1.value() > 0,
    {
        proof {
            use_type_invariant(self);
        }
        (&self.num, &self.den)
    }

    pub fn is_positive(&self) -> (r: bool)
        ensures
            r == (self.value() > 0 as real),
            self.value() >= 0 as real,
    {
        proof {
            use_type_invariant(self);
            lemma_ratio_sign(self.num.value() as int, self.den.value() as int);
        }
        !self.num.is_zero()
    }

    pub fn less(&self, other: &Ratio) -> (r: bool)
        ensures
            r == (self.value() < other.value()),
    {
        proof {
            use_type_invariant(self);
            use_type_invariant(other);
            lemma_ratio_less(
                self.num.value() as int,
                self.den.value() as int,
                other.num.value() as int,
                other.den.value() as int,
            );
        }
        self.num.times(&other.den).less(&other.num.times(&self.den))
    }

    /// `k` times as much.
    pub fn times(&self, k: u128) -> (r: Ratio)
        ensures
            r.value() == self.value() * (k as real),
    {
        proof {
            use_type_invariant(self);
            lemma_ratio_scale(self.num.value() as int, self.den.value() as int, k as int);
        }
        Ratio { num: self.num.times(&Natural::new(k)), den: self.den.clone() }
    }

    /// The `k`th part.
    pub fn over(&self, k: u128) -> (r: Ratio)
        requires
            k > 0,
        ensures
            r.value() == self.value() / (k as real),
    {
        let den: Natural = self.den.times(&Natural::new(k));
        proof {
            use_type_invariant(self);
            lemma_ratio_scale(self.num.value() as int, self.den.value() as int, k as int);
            assert(self.den.value() * (k as nat) > 0) by (nonlinear_arith)
                requires
                    self.den.value() > 0,
                    k > 0,
            ;
        }
        Ratio { num: self.num.clone(), den }
    }
}

/// A fraction of either sign, not reduced: what was gained less what was taken off.
#[derive(Debug, PartialEq, Eq)]
pub struct Amount {
    gain: Natural,
    loss: Natural,
    per: Natural,
}

impl Amount {
    #[verifier::type_invariant]
    closed spec fn has_per(self) -> bool {
        self.per.value() > 0
    }

    pub closed spec fn value(self) -> real {
        ratio(self.gain.value() - self.loss.value(), self.per.value() as int)
    }

    /// `a / b`.
    pub fn new(a: i128, b: u128) -> (r: Amount)
        requires
            b > 0,
        ensures
            r.value() == ratio(a as int, b as int),
    {
        if a >= 0 {
            Amount { gain: Natural::new(a as u128), loss: Natural::Zero, per: Natural::new(b) }
        } else {
            let loss: u128 = if a == i128::MIN {
                0x8000_0000_0000_0000_0000_0000_0000_0000
            } else {
                (-a) as u128
            };
            Amount { gain: Natural::Zero, loss: Natural::new(loss), per: Natural::new(b) }
        }
    }

    /// The part of `m` that `part` is of `whole`.
    pub fn share(m: i128, part: u128, whole: u128) -> (r: Amount)
        requires
            whole > 0,
        ensures
            r.value() == ratio(m * part, whole as int),
    {
        if part == whole {
            proof {
                lemma_ratio_less(m * part, whole as int, m as int, 1);
                assert((m * part) * 1 == m * whole) by (nonlinear_arith)
                    requires
                        part == whole,
                ;
            }
            Amount::new(m, 1)
        } else {
            let all: Amount = Amount::new(m, whole);
            let n: Natural = Natural::new(part);
            proof {
                use_type_invariant(&all);
                let (g, l, k) = (all.gain.value() as int, all.loss.value() as int, part as int);
                lemma_ratio_scale(m as int, whole as int, k);
                lemma_ratio_scale(g - l, all.per.value() as int, k);
                assert(g * k - l * k == (g - l) * k) by (nonlinear_arith);
            }
            Amount { gain: all.gain.times(&n), loss: all.loss.times(&n), per: all.per }
        }
    }

    pub fn zero() -> (r: Amount)
        ensures
            r.value() == 0 as real,
    {
        proof {
            lemma_ratio_whole(0);
        }
        Amount::new(0, 1)
    }

    /// The sum of two amounts. Where both are over the same number, so is the sum.
    pub fn plus(&self, other: &Amount) -> (r: Amount)
        ensures
            r.value() == self.value() + other.value(),
    {
        proof {
            use_type_invariant(self);
            use_type_invariant(other);
        }
        let ghost (a, b) = (self.gain.value() - self.loss.value(), self.per.value() as int);
        let ghost (c, d) = (other.gain.value() - other.loss.value(), other.per.value() as int);
        match self.per.rank(&other.per) {
            Rank::Same => {
                proof {
                    lemma_ratio_same_per(a, c, b);
                }
                Amount {
                    gain: self.gain.plus(&other.gain),
                    loss: self.loss.plus(&other.loss),
                    per: self.per.clone(),
                }
            },
            _ => {
                let per: Natural = self.per.times(&other.per);
                proof {
                    lemma_ratio_sum(a, b, c, d);
                    assert(b * d > 0) by (nonlinear_arith)
                        requires
                            b > 0,
                            d > 0,
                    ;
                    let (g, l, h, m) = (
                        self.gain.value() as int,
                        self.loss.value() as int,
                        other.gain.value() as int,
                        other.loss.value() as int,
                    );
                    assert((g * d + h * b) - (l * d + m * b) == (g - l) * d + (h - m) * b) by (nonlinear_arith);
                }
                Amount {
                    gain: self.gain.times(&other.per).plus(&other.gain.times(&self.per)),
                    loss: self.loss.times(&other.per).plus(&other.loss.times(&self.per)),
                    per,
                }
            },
        }
    }

    /// What was gained, what was taken off, and what both are over, which is never 0.
    pub fn parts(&self) -> (r: (&Natural, &Natural, &Natural))
        ensures
            self.value() == ratio(r.0.value() - r.1.value(), r.2.value() as int),
            r.2.value() > 0,
    {
        proof {
            use_type_invariant(self);
        }
        (&self.gain, &self.loss, &self.per)
    }

    /// More than `k`.
    pub fn above(&self, k: u128) -> (r: bool)
        ensures
            r == (self.value() > k as real),
    {
        proof {
            use_type_invariant(self);
            let (n, d) = (self.gain.value() - self.loss.value(), self.per.value() as int);
            lemma_ratio_less(k as int, 1, n, d);
            lemma_ratio_whole(k as int);
            assert(n * 1 == n) by (nonlinear_arith);
            assert(self.per.value() * (k as nat) == k * d) by (nonlinear_arith)
                requires
                    d == self.per.value(),
            ;
        }
        self.loss.plus(&self.per.times(&Natural::new(k))).less(&self.gain)
    }

    pub open spec fn max_zero(x: real) -> real {
        if x > 0 as real {
            x
        } else {
            0 as real
        }
    }

    /// The amount, or nothing where it is negative.
    pub fn or_zero(&self) -> (r: Ratio)
        ensures
            r.value() == Amount::max_zero(self.value()),
    {
        proof {
            use_type_invariant(self);
            lemma_ratio_sign(self.gain.value() - self.loss.value(), self.per.value() as int);
        }
        if self.loss.less(&self.gain) {
            Ratio { num: self.gain.minus(&self.loss), den: self.per.clone() }
        } else {
            Ratio::whole(0)
        }
    }
}

} // verus!
