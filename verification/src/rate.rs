//! Frame-rate estimation from capture timestamps.
//!
//! Timestamps are nanoseconds since the epoch. A rate is kept as an exact
//! ratio of frames to elapsed time, so the estimate carries no rounding until
//! it is rendered for the encoder's command line.

use vstd::prelude::*;
use crate::text::dec_rep;
use crate::text::digit_char;
use crate::text::digit_str;
use crate::text::u128_to_decimal;

verus! {

/// Nanoseconds in one second.
pub const NANOS_PER_SEC: u64 = 1_000_000_000;

/// A frame rate in frames per second, as the exact ratio `num / den`.
#[derive(Clone, Copy, Debug, PartialEq, Eq, Structural)]
pub struct Rate {
    pub num: u128,
    pub den: u128,
}

impl Rate {
    /// Well-formed: a positive denominator, and both parts small enough that
    /// scaling to thousandths for rendering cannot overflow.
    pub open spec fn wf(self) -> bool {
        0 < self.den <= u64::MAX as u128 && self.num <= (u64::MAX as u128) * (
        NANOS_PER_SEC as u128)
    }

    /// The two rates denote the same ratio.
    pub open spec fn same_ratio(self, other: Rate) -> bool {
        self.num * other.den == other.num * self.den
    }
}

/// The fallback rate, 24 frames per second, used whenever no rate can be
/// estimated.
pub open spec fn spec_default_rate() -> Rate {
    Rate { num: 24, den: 1 }
}

/// The fallback rate used when estimation yields nothing.
pub fn default_rate() -> (r: Rate)
    ensures
        r == spec_default_rate(),
        r.wf(),
{
    Rate { num: 24, den: 1 }
}

/// Every timestamp lookup in the sequence succeeded.
pub open spec fn all_resolved(ts: Seq<Option<u64>>) -> bool {
    forall|i: int| 0 <= i < ts.len() ==> ts[i] is Some
}

/// The signed time difference between each frame and the one before it.
pub open spec fn deltas(ts: Seq<Option<u64>>) -> Seq<int>
    recommends
        ts.len() >= 1,
{
    Seq::new((ts.len() - 1) as nat, |i: int| ts[i + 1]->0 - ts[i]->0)
}

/// The sum of a sequence of integers.
pub open spec fn sum_of(s: Seq<int>) -> int
    decreases s.len(),
{
    if s.len() == 0 {
        0
    } else {
        sum_of(s.drop_last()) + s.last()
    }
}

/// The consecutive deltas telescope: their sum is the last timestamp minus
/// the first.
pub proof fn lemma_delta_sum_telescopes(ts: Seq<Option<u64>>)
    requires
        ts.len() >= 2,
    ensures
        sum_of(deltas(ts)) == ts.last()->0 - ts.first()->0,
    decreases ts.len(),
{
    assert(deltas(ts).len() == ts.len() - 1);
    assert(deltas(ts).last() == ts.last()->0 - ts[ts.len() - 2]->0);
    if ts.len() == 2 {
        assert(sum_of(Seq::<int>::empty()) == 0);
        assert(deltas(ts).drop_last() =~= Seq::<int>::empty());
        assert(sum_of(deltas(ts)) == deltas(ts).last());
    } else {
        lemma_delta_sum_telescopes(ts.drop_last());
        assert(deltas(ts).drop_last() =~= deltas(ts.drop_last()));
        assert(ts.drop_last().last() == ts[ts.len() - 2]);
        assert(ts.drop_last().first() == ts.first());
    }
}

/// Each timestamp exceeds the one before it by exactly `d` nanoseconds.
pub open spec fn constant_delta(ts: Seq<Option<u64>>, d: u64) -> bool {
    forall|i: int| 1 <= i < ts.len() ==> (#[trigger] ts[i])->0 == ts[i - 1]->0 + d
}

/// Timestamps that increase by a constant delta `d` span `(len - 1) * d`
/// from first to last.
pub proof fn lemma_constant_delta_span(ts: Seq<Option<u64>>, d: u64)
    requires
        ts.len() >= 2,
        constant_delta(ts, d),
    ensures
        ts.last()->0 == ts.first()->0 + (ts.len() - 1) * d,
    decreases ts.len(),
{
    if ts.len() == 2 {
        assert(ts[1]->0 == ts[0]->0 + d);
    } else {
        let dl = ts.drop_last();
        assert forall|i: int| 1 <= i < dl.len() implies (#[trigger] dl[i])->0 == dl[i - 1]->0
            + d by {
            assert(ts[i]->0 == ts[i - 1]->0 + d);
        }
        lemma_constant_delta_span(dl, d);
        assert(ts.last()->0 == ts[ts.len() - 2]->0 + d);
        assert((ts.len() - 1) * d == (ts.len() - 2) * d + d) by (nonlinear_arith);
    }
}

/// Frames whose timestamps increase by a constant positive delta `d`
/// (nanoseconds) always yield an estimate, and the estimated rate equals one
/// second over `d`.
pub proof fn lemma_constant_delta_rate(ts: Seq<Option<u64>>, d: u64)
    requires
        ts.len() >= 2,
        d > 0,
        all_resolved(ts),
        constant_delta(ts, d),
    ensures
        spec_estimate(ts) is Some,
        spec_estimate(ts)->0.same_ratio(Rate { num: NANOS_PER_SEC as u128, den: d as u128 }),
{
    lemma_delta_sum_telescopes(ts);
    lemma_constant_delta_span(ts, d);
    let n = ts.len() as int;
    let span = sum_of(deltas(ts));
    assert(span == (n - 1) * d);
    assert(span > 0) by (nonlinear_arith)
        requires
            span == (n - 1) * d,
            n >= 2,
            d > 0,
    ;
    assert(0 <= ts.first()->0 && ts.last()->0 <= u64::MAX);
    assert(span <= u64::MAX);
    assert(n - 1 <= span) by (nonlinear_arith)
        requires
            span == (n - 1) * d,
            d >= 1,
            n >= 2,
    ;
    let num_i = (n - 1) * (NANOS_PER_SEC as int);
    assert(0 <= num_i <= (u64::MAX as int) * (NANOS_PER_SEC as int)) by (nonlinear_arith)
        requires
            num_i == (n - 1) * (NANOS_PER_SEC as int),
            0 <= n - 1 <= u64::MAX as int,
            NANOS_PER_SEC as int >= 0,
    ;
    let r = spec_estimate(ts)->0;
    assert(r.num == num_i as u128);
    assert(r.den == span as u128);
    assert(r.num == num_i);
    assert(r.den == span);
    assert(r.num * (d as u128) == (NANOS_PER_SEC as u128) * r.den) by (nonlinear_arith)
        requires
            r.num == (n - 1) * (NANOS_PER_SEC as int),
            r.den == (n - 1) * (d as int),
    ;
}

/// What estimation yields for a sequence of resolved timestamps: nothing for
/// fewer than two frames, nothing when any lookup failed, nothing — the
/// policy chosen for degenerate data — when the deltas sum to zero or less
/// (identical or out-of-order timestamps, which would give an infinite or
/// negative rate), and otherwise the mean delta's reciprocal, as the exact
/// ratio of the frame intervals to the elapsed nanoseconds.
pub open spec fn spec_estimate(ts: Seq<Option<u64>>) -> Option<Rate> {
    if ts.len() < 2 {
        None
    } else if !all_resolved(ts) {
        None
    } else if sum_of(deltas(ts)) <= 0 {
        None
    } else {
        Some(
            Rate {
                num: ((ts.len() - 1) * (NANOS_PER_SEC as int)) as u128,
                den: sum_of(deltas(ts)) as u128,
            },
        )
    }
}

/// Estimates the playback rate from the frames' capture timestamps, given in
/// play order. The reciprocal of the mean inter-frame delta is returned as an
/// exact ratio; `None` reports that no rate can be estimated.
pub fn estimate_rate(ts: &Vec<Option<u64>>) -> (r: Option<Rate>)
    ensures
        r == spec_estimate(ts@),
        r is Some ==> r->0.wf(),
{
    let n: usize = ts.len();
    if n < 2 {
        return None;
    }
    let first: u64 = match ts[0] {
        Some(t) => t,
        None => {
            return None;
        },
    };
    let mut sum: i128 = 0;
    let mut i: usize = 1;
    while i < n
        invariant
            1 <= i <= n,
            n == ts@.len(),
            ts@[0] is Some,
            first == ts@[0]->0,
            forall|k: int| 0 <= k < i ==> ts@[k] is Some,
            sum == ts@[i - 1]->0 - ts@[0]->0,
        decreases n - i,
    {
        let prev: u64 = match ts[i - 1] {
            Some(t) => t,
            None => {
                return None;
            },
        };
        let curr: u64 = match ts[i] {
            Some(t) => t,
            None => {
                return None;
            },
        };
        sum = sum + ((curr as i128) - (prev as i128));
        i = i + 1;
    }
    proof {
        lemma_delta_sum_telescopes(ts@);
    }
    if sum <= 0 {
        return None;
    }
    let intervals: u128 = (n - 1) as u128;
    let num: u128 = intervals * (NANOS_PER_SEC as u128);
    let den: u128 = sum as u128;
    Some(Rate { num, den })
}

/// The rate estimation yields, or the default where it yields nothing.
pub open spec fn spec_rate_or_default(est: Option<Rate>) -> Rate {
    if est is Some {
        est->0
    } else {
        spec_default_rate()
    }
}

/// Substitutes the default rate for a failed estimation.
pub fn rate_or_default(est: Option<Rate>) -> (r: Rate)
    requires
        est is Some ==> est->0.wf(),
    ensures
        r == spec_rate_or_default(est),
        r.wf(),
{
    match est {
        Some(rate) => rate,
        None => default_rate(),
    }
}

/// The decimal rendering of a rate: the ratio scaled to thousandths and
/// truncated, written with three fractional digits, or with none when they
/// are all zero.
pub open spec fn rate_decimal(num: nat, den: nat) -> Seq<char>
    recommends
        den > 0,
{
    let scaled = num * 1000 / den;
    let whole = scaled / 1000;
    let frac = scaled % 1000;
    if frac == 0 {
        dec_rep(whole)
    } else {
        dec_rep(whole) + seq![
            '.',
            digit_char((frac / 100) as int),
            digit_char(((frac / 10) % 10) as int),
            digit_char((frac % 10) as int),
        ]
    }
}

/// Renders a rate as the decimal string handed to the encoder.
pub fn render_rate(rate: &Rate) -> (s: String)
    requires
        rate.wf(),
    ensures
        s@ == rate_decimal(rate.num as nat, rate.den as nat),
{
    let scaled: u128 = rate.num * 1000 / rate.den;
    let whole: u128 = scaled / 1000;
    let frac: u128 = scaled % 1000;
    let mut s = u128_to_decimal(whole);
    if frac > 0 {
        proof {
            reveal_strlit(".");
            assert("."@ =~= seq!['.']);
        }
        s.append(".");
        s.append(digit_str(frac / 100));
        s.append(digit_str((frac / 10) % 10));
        s.append(digit_str(frac % 10));
        proof {
            assert(s@ =~= rate_decimal(rate.num as nat, rate.den as nat));
        }
    }
    s
}

} // verus!
