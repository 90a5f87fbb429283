//! Speeds in tokens per second, held as exact fractions.

use vstd::prelude::*;

use crate::exact;
use crate::exact::Ratio;
use crate::liveio::calibration::Bpt;

verus! {

/// Bytes per second: thousandths of a byte over milliseconds.
#[derive(Debug, PartialEq, Eq)]
pub struct ByteRate {
    pub millibytes: Ratio,
    pub ms: u128,
}

impl Clone for ByteRate {
    fn clone(&self) -> (r: Self)
        ensures
            r == *self,
    {
        ByteRate { millibytes: self.millibytes.clone(), ms: self.ms }
    }
}

impl ByteRate {
    /// Bytes per second; none where no time passed.
    pub open spec fn value(self) -> real {
        if self.ms > 0 {
            self.millibytes.value() / (self.ms as real)
        } else {
            0 as real
        }
    }

    /// Nothing in no time.
    pub fn none() -> (r: ByteRate)
        ensures
            r.value() == 0 as real,
    {
        ByteRate { millibytes: Ratio::whole(0), ms: 0 }
    }

    pub fn per_second(&self) -> (r: Ratio)
        ensures
            r.value() == self.value(),
    {
        if self.ms > 0 {
            self.millibytes.over(self.ms)
        } else {
            Ratio::whole(0)
        }
    }
}

/// A speed in tokens per second.
#[derive(Debug, PartialEq, Eq)]
pub enum Speed {
    Zero,
    /// Tokens of finished calls over the time in which they were generated.
    Tokens { tokens: u64, ms: u64 },
    /// Bytes per second of a running stream over the bytes that stand for one
    /// token.
    Stream { pipe: ByteRate, bpt: Bpt },
}

impl Clone for Speed {
    fn clone(&self) -> (s: Self)
        ensures
            s == *self,
    {
        match self {
            Speed::Zero => Speed::Zero,
            Speed::Tokens { tokens, ms } => Speed::Tokens { tokens: *tokens, ms: *ms },
            Speed::Stream { pipe, bpt } => Speed::Stream { pipe: pipe.clone(), bpt: bpt.clone() },
        }
    }
}

/// A rate of bytes over the bytes that stand for one token.
pub open spec fn tokens_per_second(pipe: real, bpt: real) -> real {
    if bpt > 0 as real {
        pipe / bpt
    } else {
        0 as real
    }
}

impl Speed {
    /// Tokens per second.
    pub open spec fn value(self) -> real {
        match self {
            Speed::Zero => 0 as real,
            Speed::Tokens { tokens, ms } => if ms > 0 {
                exact::ratio(1000 * tokens, ms as int)
            } else {
                0 as real
            },
            Speed::Stream { pipe, bpt } => tokens_per_second(pipe.value(), bpt.value()),
        }
    }

    /// The speed of `tokens` generated in `ms`, or none where no time passed.
    pub open spec fn of_tokens(tokens: int, ms: int) -> Speed {
        if ms > 0 {
            Speed::Tokens { tokens: tokens as u64, ms: ms as u64 }
        } else {
            Speed::Zero
        }
    }

    pub fn from_tokens(tokens: u64, ms: u64) -> (s: Speed)
        ensures
            s == Speed::of_tokens(tokens as int, ms as int),
    {
        if ms > 0 {
            Speed::Tokens { tokens, ms }
        } else {
            Speed::Zero
        }
    }

    /// More than nothing per second.
    pub fn is_positive(&self) -> (r: bool)
        ensures
            r == (self.value() > 0 as real),
    {
        match self {
            Speed::Zero => false,
            Speed::Tokens { tokens, ms } => {
                proof {
                    if *ms > 0 {
                        exact::lemma_ratio_sign(1000 * *tokens, *ms as int);
                    }
                }
                *ms > 0 && *tokens > 0
            },
            Speed::Stream { pipe, bpt } => {
                let (up, down): (Ratio, Ratio) = (pipe.per_second(), bpt.per_token());
                proof {
                    let (x, y) = (up.value(), down.value());
                    assert(y > 0 as real ==> (x / y > 0 as real) == (x > 0 as real)) by (nonlinear_arith);
                }
                down.is_positive() && up.is_positive()
            },
        }
    }

    /// Less than one token per second.
    pub fn below_one(&self) -> (r: bool)
        ensures
            r == (self.value() < 1 as real),
    {
        match self {
            Speed::Zero => true,
            Speed::Tokens { tokens, ms } => {
                proof {
                    if *ms > 0 {
                        let n = 1000 * *tokens;
                        exact::lemma_ratio_less(n, *ms as int, 1, 1);
                        exact::lemma_ratio_whole(1);
                    }
                }
                *ms == 0 || 1000 * (*tokens as u128) < *ms as u128
            },
            Speed::Stream { pipe, bpt } => {
                let (up, down): (Ratio, Ratio) = (pipe.per_second(), bpt.per_token());
                proof {
                    let (x, y) = (up.value(), down.value());
                    assert(y > 0 as real ==> (x / y < 1 as real) == (x < y)) by (nonlinear_arith);
                }
                !down.is_positive() || up.less(&down)
            },
        }
    }
}

/// A coefficient taken from a stretch of ticks turns the rate of that same
/// stretch into the tokens it was taken from: `clean` bytes (in thousandths)
/// over `ms`, divided by `clean` bytes per `tokens`, are `tokens` over `ms`.
/// Whatever cleaning took off stands on both sides and cancels out.
pub proof fn calibrated_speed_is_true_speed(clean: real, ms: int, tokens: int)
    requires
        clean > 0 as real,
        ms > 0,
        tokens > 0,
    ensures
        tokens_per_second(clean / (ms as real), clean / ((1000 * tokens) as real)) == exact::ratio(
            1000 * tokens,
            ms,
        ),
{
    let (m, t) = (ms as real, (1000 * tokens) as real);
    assert(clean / t > 0 as real) by (nonlinear_arith)
        requires
            clean > 0 as real,
            t > 0 as real,
    ;
    assert((clean / m) / (clean / t) == t / m) by (nonlinear_arith)
        requires
            clean > 0 as real,
            m > 0 as real,
            t > 0 as real,
    ;
}

/// A speed makes its tokens in its time.
pub proof fn speed_makes_tokens_in_time(tokens: int, ms: int)
    requires
        0 <= tokens <= u64::MAX,
        0 < ms <= u64::MAX,
    ensures
        Speed::of_tokens(tokens, ms).value() * (ms as real) == (1000 * tokens) as real,
{
    let (a, b) = ((1000 * tokens) as real, ms as real);
    assert((a / b) * b == a) by (nonlinear_arith)
        requires
            b != 0 as real,
    ;
}

/// A rate carries its bytes in its time.
pub proof fn rate_carries_bytes_in_time(r: ByteRate)
    ensures
        r.ms > 0 ==> r.value() * (r.ms as real) == r.millibytes.value(),
        r.ms == 0 ==> r.value() == 0 as real,
{
    if r.ms > 0 {
        let (a, b) = (r.millibytes.value(), r.ms as real);
        assert((a / b) * b == a) by (nonlinear_arith)
            requires
                b != 0 as real,
        ;
    }
}

/// The speed of a stream, times the bytes of a token, is its rate.
pub proof fn stream_speed_makes_its_rate(pipe: ByteRate, bpt: Bpt)
    ensures
        bpt.value() > 0 as real ==> (Speed::Stream { pipe, bpt }).value() * bpt.value() == pipe.value(),
        bpt.value() <= 0 as real ==> (Speed::Stream { pipe, bpt }).value() == 0 as real,
{
    if bpt.value() > 0 as real {
        let (a, b) = (pipe.value(), bpt.value());
        assert((a / b) * b == a) by (nonlinear_arith)
            requires
                b != 0 as real,
        ;
    }
}

/// No time, no speed.
pub proof fn no_time_has_no_speed(tokens: int, ms: int)
    requires
        ms <= 0,
    ensures
        Speed::of_tokens(tokens, ms) == Speed::Zero,
        Speed::Zero.value() == 0 as real,
{
}

} // verus!
