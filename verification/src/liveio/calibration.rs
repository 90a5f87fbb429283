//! The coefficient from bytes to tokens: which calls may shape it, and the
//! median that it is.

use std::collections::VecDeque;
use vstd::prelude::*;

use crate::exact::{Amount, Ratio};
use crate::order;

use super::params::CleanParams;
use super::rows;

verus! {

/// How long a call may run without a streamed byte before it counts as silent.
pub const TTFT_HINT_MS: i64 = 20_000;

/// Bytes per token: the bytes of a call (in thousandths) and its tokens.
#[derive(Debug, PartialEq, Eq)]
pub struct Bpt {
    pub millibytes: Ratio,
    pub tokens: u64,
}

impl Clone for Bpt {
    fn clone(&self) -> (b: Self)
        ensures
            b == *self,
    {
        Bpt { millibytes: self.millibytes.clone(), tokens: self.tokens }
    }
}

/// The tokens that the bytes are spread over, never 0.
pub open spec fn spread(tokens: u64) -> int {
    if tokens == 0 {
        1
    } else {
        tokens as int
    }
}

/// Bytes per token of `millibytes` thousandths for `tokens`.
pub open spec fn per_token(millibytes: real, tokens: u64) -> real {
    millibytes / ((1000 * spread(tokens)) as real)
}

impl Bpt {
    /// Bytes per token.
    pub open spec fn value(self) -> real {
        per_token(self.millibytes.value(), self.tokens)
    }

    /// Nothing for a token.
    pub fn nothing() -> (b: Bpt)
        ensures
            b.value() == 0 as real,
    {
        let b = Bpt { millibytes: Ratio::whole(0), tokens: 1 };
        assert((0 as real) / (1000 as real) == 0 as real) by (nonlinear_arith);
        b
    }

    /// The coefficient that the settings start from.
    pub fn prior(p: &CleanParams) -> (b: Bpt)
        ensures
            b.value() == p.default_bpt as real,
    {
        let b = Bpt { millibytes: Ratio::whole(1000 * (p.default_bpt as u128)), tokens: 1 };
        proof {
            let (x, y) = ((1000 * p.default_bpt) as real, p.default_bpt as real);
            assert(x / (1000 as real) == y) by (nonlinear_arith)
                requires
                    x == (1000 as real) * y,
            ;
        }
        b
    }

    pub fn per_token(&self) -> (r: Ratio)
        ensures
            r.value() == self.value(),
    {
        let per: u128 = if self.tokens == 0 {
            1
        } else {
            self.tokens as u128
        };
        self.millibytes.over(1000 * per)
    }

    pub fn less(&self, other: &Bpt) -> (r: bool)
        ensures
            r == (self.value() < other.value()),
    {
        self.per_token().less(&other.per_token())
    }
}

/// The usual order of the numbers.
pub open spec fn real_leq() -> spec_fn(real, real) -> bool {
    |x: real, y: real| x <= y
}

/// `v` stands in the middle of the samples put in order; of an even number, it is
/// the upper of the two in the middle.
pub open spec fn is_median(s: Seq<real>, v: real) -> bool {
    order::is_kth(s, real_leq(), (s.len() / 2) as int, v)
}

/// The middle one of the samples.
pub open spec fn upper_median(s: Seq<real>) -> real {
    choose|v: real| is_median(s, v)
}

/// The median is a sample that has the middle rank.
pub proof fn lemma_median_stands(s: Seq<real>)
    requires
        s.len() > 0,
    ensures
        s.contains(upper_median(s)),
        is_median(s, upper_median(s)),
{
    let w = order::lemma_kth_exists(s, real_leq(), (s.len() / 2) as int);
    assert(is_median(s, s[w]));
}

/// Of two samples the upper one is the median.
pub proof fn lemma_upper_of_two(a: real, b: real)
    requires
        b < a,
    ensures
        upper_median(seq![a, b]) == a,
{
    let s = seq![a, b];
    lemma_median_stands(s);
    let m = upper_median(s);
    if m == b {
        let at_most = |x: real| real_leq()(x, b);
        assert(s.drop_last() =~= seq![a]);
        assert(s.drop_last().drop_last() =~= Seq::empty());
        reveal_with_fuel(order::count, 3);
        assert(order::count(s, at_most) <= 1);
    }
}

/// A coefficient within the range that samples are held to.
pub open spec fn bounded(b: real, p: CleanParams) -> bool {
    p.cal_min as real <= b <= p.cal_max as real
}

/// The coefficient that the samples give. The first one is the prior, and a single
/// sample beside it does not move it; from the second on it is their median.
pub open spec fn coefficient(s: Seq<real>) -> real {
    if s.len() <= 2 {
        s[0]
    } else {
        upper_median(s)
    }
}

/// The samples after one more has come in: the newest `cap` of them.
pub open spec fn slid(s: Seq<real>, sample: real, cap: int) -> Seq<real> {
    let t = s.push(sample);
    if t.len() > cap {
        t.skip(t.len() - cap)
    } else {
        t
    }
}

/// What the samples are, in bytes per token.
pub open spec fn values_of(s: Seq<Bpt>) -> Seq<real> {
    s.map_values(|b: Bpt| b.value())
}

fn count_samples(s: &VecDeque<Bpt>, v: &Bpt, strict: bool) -> (n: usize)
    ensures
        n == (if strict {
            order::count(values_of(s@), |x: real| !real_leq()(v.value(), x))
        } else {
            order::count(values_of(s@), |x: real| real_leq()(x, v.value()))
        }),
{
    let ghost p = if strict {
        |x: real| !real_leq()(v.value(), x)
    } else {
        |x: real| real_leq()(x, v.value())
    };
    let ghost all = values_of(s@);
    let mut n: usize = 0;
    let mut i: usize = 0;
    while i < s.len()
        invariant
            i <= s@.len(),
            n <= i,
            all == values_of(s@),
            n == order::count(all.take(i as int), p),
            p == (if strict {
                |x: real| !real_leq()(v.value(), x)
            } else {
                |x: real| real_leq()(x, v.value())
            }),
        decreases s.len() - i,
    {
        assert(all.take(i + 1).drop_last() =~= all.take(i as int));
        assert(all.take(i + 1).last() == s@[i as int].value());
        let x: &Bpt = &s[i];
        let counts: bool = if strict {
            x.less(v)
        } else {
            !v.less(x)
        };
        if counts {
            n = n + 1;
        }
        i = i + 1;
    }
    assert(all.take(s@.len() as int) =~= all);
    n
}

fn pick_median(s: &VecDeque<Bpt>) -> (m: Bpt)
    requires
        s@.len() > 0,
    ensures
        m.value() == upper_median(values_of(s@)),
{
    let k: usize = s.len() / 2;
    let ghost all = values_of(s@);
    let ghost w = 0int;
    proof {
        w = order::lemma_kth_exists(all, real_leq(), k as int);
        lemma_median_stands(all);
    }
    let mut i: usize = 0;
    while i < s.len()
        invariant
            k == s@.len() / 2,
            s@.len() > 0,
            all == values_of(s@),
            i <= w < s@.len(),
            order::is_kth(all, real_leq(), k as int, all[w]),
            is_median(all, upper_median(all)),
        decreases s.len() - i,
    {
        let v: &Bpt = &s[i];
        assert(all[i as int] == v.value());
        assert(all.contains(all[i as int]));
        if count_samples(s, v, true) <= k && k < count_samples(s, v, false) {
            proof {
                order::lemma_kth_unique(all, real_leq(), k as int, v.value(), upper_median(all));
            }
            return v.clone();
        }
        i = i + 1;
    }
    s[0].clone()
}

/// Adds a sample, keeps the newest `cap` and gives their upper median.
pub fn median_bpt(samples: &mut VecDeque<Bpt>, sample: Bpt, cap: usize) -> (m: Bpt)
    requires
        cap > 0,
    ensures
        values_of(final(samples)@) == slid(values_of(old(samples)@), sample.value(), cap as int),
        m.value() == upper_median(values_of(final(samples)@)),
        is_median(values_of(final(samples)@), m.value()),
{
    samples.push_back(sample);
    let ghost all = samples@;
    let ghost mut gone = 0int;
    while samples.len() > cap
        invariant
            cap > 0,
            0 <= gone <= all.len(),
            samples@ == all.skip(gone),
            gone > 0 ==> samples@.len() >= cap,
            all.len() > 0,
        decreases samples.len(),
    {
        let _ = samples.pop_front();
        proof {
            gone = gone + 1;
            assert(samples@ =~= all.skip(gone));
        }
    }
    proof {
        assert(values_of(all) =~= values_of(old(samples)@).push(sample.value()));
        assert(values_of(samples@) =~= slid(values_of(old(samples)@), sample.value(), cap as int));
        lemma_median_stands(values_of(samples@));
    }
    pick_median(samples)
}

/// Whether the bytes of a call are mostly its own stream: at least a fifth of
/// all that was written meanwhile.
pub open spec fn substantial(clean: real, raw: int) -> bool {
    (5 as real) * clean >= (1000 * raw) as real
}

/// Whether a sample lies more than `ratio` times below or above `now`.
pub open spec fn outlier(sample: real, now: real, ratio: int) -> bool {
    &&& ratio > 0
    &&& now > 0 as real
    &&& sample < now / (ratio as real) || sample > now * (ratio as real)
}

/// Whether a call of `eff` tokens has enough of everything to be looked at.
pub open spec fn measurable(eff: u64, clean: real, raw: int, p: CleanParams) -> bool {
    eff >= p.cal_min_tokens && clean > 0 as real && raw > 0
}

/// Whether the bytes per token of a call lie in the accepted range. A call without
/// tokens has none.
pub open spec fn in_range(eff: u64, clean: real, raw: int, p: CleanParams) -> bool {
    &&& eff > 0
    &&& substantial(clean, raw)
    &&& bounded(per_token(clean, eff), p)
}

/// Whether a call of `eff` tokens is taken as a sample.
pub open spec fn sample_taken(eff: u64, clean: real, raw: int, now: real, p: CleanParams) -> bool {
    &&& measurable(eff, clean, raw, p)
    &&& in_range(eff, clean, raw, p)
    &&& !outlier(per_token(clean, eff), now, p.cal_outlier_ratio as int)
}

/// Whether a finished call becomes a calibration sample, and the sample. `clean`
/// is in thousandths of a byte, `raw` in bytes. A call that is not measurable,
/// or an outlier, gives the sample 0.
pub fn cal_sample(eff: u64, clean: &Amount, raw: u128, bpt_now: &Bpt, p: &CleanParams) -> (r: (bool, Bpt))
    ensures
        r.0 == sample_taken(eff, clean.value(), raw as int, bpt_now.value(), *p),
        r.1.value() == (if measurable(eff, clean.value(), raw as int, *p) && (r.0 || !in_range(
            eff,
            clean.value(),
            raw as int,
            *p,
        )) {
            per_token(clean.value(), eff)
        } else {
            0 as real
        }),
{
    if eff < p.cal_min_tokens || !clean.above(0) || raw == 0 {
        return (false, Bpt::nothing());
    }
    let all: Ratio = clean.or_zero();
    let fifth: Ratio = Ratio::whole(raw).times(1000);
    let usable: bool = !all.times(5).less(&fifth);
    proof {
        let c = clean.value();
        assert(c * (5 as real) == (5 as real) * c) by (nonlinear_arith);
        assert((1000 * raw) as real == (raw as real) * (1000 as real));
        assert(usable == substantial(c, raw as int));
    }
    let sample: Bpt = Bpt { millibytes: all, tokens: eff };
    let v: Ratio = sample.per_token();
    let fits: bool = eff > 0 && usable && !v.less(&Ratio::whole(p.cal_min as u128)) && !Ratio::whole(
        p.cal_max as u128,
    ).less(&v);
    assert(fits == in_range(eff, clean.value(), raw as int, *p));
    let now: Ratio = bpt_now.per_token();
    if fits && p.cal_outlier_ratio > 0 && now.is_positive() {
        let k: u128 = p.cal_outlier_ratio as u128;
        proof {
            let (x, n, r) = (v.value(), now.value(), k as real);
            assert((x * r < n) == (x < n / r)) by (nonlinear_arith)
                requires
                    r > 0 as real,
            ;
        }
        if v.times(k).less(&now) || now.times(k).less(&v) {
            return (false, Bpt::nothing());
        }
    }
    (fits, sample)
}

/// Whether a call is still expected to show its first byte: it runs, nothing has
/// streamed, and it began no longer than [`TTFT_HINT_MS`] ago.
pub fn awaiting_hint(inflight_started: Option<i64>, anchor: Option<i64>, now_ms: i64) -> (r: bool)
    ensures
        r == (inflight_started is Some && anchor is None && now_ms - inflight_started->0 <= TTFT_HINT_MS),
{
    match (inflight_started, anchor) {
        (Some(started), None) => now_ms as i128 - started as i128 <= TTFT_HINT_MS as i128,
        _ => false,
    }
}

/// What each tick of a series wrote, in bytes.
pub open spec fn deltas_of(samples: Seq<(i64, u64)>) -> Seq<i128> {
    Seq::new(
        if samples.len() == 0 {
            0
        } else {
            (samples.len() - 1) as nat
        },
        |i: int| rows::gained(samples[i], samples[i + 1]) as i128,
    )
}

/// The noise floor that a process shows: twice the tenth part from below of its
/// ticks, once there are 20 of them.
pub open spec fn adaptive_floor(samples: Seq<(i64, u64)>) -> int {
    let d = deltas_of(samples);
    if d.len() >= 20 {
        2 * order::kth_smallest(d, (d.len() / 10) as int)
    } else {
        0
    }
}

pub fn noise_floor(samples: &[(i64, u64)]) -> (f: u128)
    ensures
        f == adaptive_floor(samples@),
{
    let mut deltas: Vec<i128> = Vec::new();
    let mut i: usize = 1;
    while i < samples.len()
        invariant
            1 <= i,
            samples@.len() > 0 ==> i <= samples@.len(),
            deltas@ == deltas_of(samples@.take(if samples@.len() == 0 { 0 } else { i as int })),
            forall|j: int| 0 <= j < deltas@.len() ==> 0 <= #[trigger] deltas@[j] <= u64::MAX,
        decreases samples.len() - i,
    {
        let d: i128 = samples[i].1.saturating_sub(samples[i - 1].1) as i128;
        deltas.push(d);
        i = i + 1;
        assert(deltas@ =~= deltas_of(samples@.take(i as int)));
    }
    assert(samples@.take(samples@.len() as int) =~= samples@);
    if deltas.len() >= 20 {
        let k: usize = deltas.len() / 10;
        let v: i128 = order::select(&deltas, k);
        proof {
            let j = choose|j: int| 0 <= j < deltas@.len() && deltas@[j] == v;
            assert(0 <= deltas@[j] <= u64::MAX);
        }
        2 * (v as u128)
    } else {
        0
    }
}

} // verus!
