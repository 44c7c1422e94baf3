//! Timestamps and their conversion to microseconds.

use vstd::arithmetic::div_mod::{lemma_fundamental_div_mod, lemma_fundamental_div_mod_converse};
use vstd::prelude::*;

verus! {

/// Microseconds in one second.
pub const MICROS_PER_SECOND: i64 = 1_000_000;

/// The largest clock frequency (ticks per second) that a stopwatch accepts:
/// with it, `frequency * MICROS_PER_SECOND` still fits in an `i64`.
pub const MAX_FREQUENCY: i64 = 9_223_372_036_854;

/// Rust's truncating division of `a` by a positive `d`.
pub open spec fn trunc_div(a: int, d: int) -> int
    recommends
        d > 0,
{
    if a >= 0 {
        a / d
    } else {
        -((-a) / d)
    }
}

/// `(value * numer) / denom`, rounded toward zero as Rust's integer division
/// does.
pub open spec fn mul_div_spec(value: int, numer: int, denom: int) -> int {
    trunc_div(value * numer, denom)
}

/// Splitting off the whole multiples of `d` before multiplying leaves a
/// non-negative quotient unchanged.
proof fn lemma_mul_div_split(a: int, n: int, d: int)
    requires
        a >= 0,
        n >= 0,
        d > 0,
    ensures
        (a * n) / d == (a / d) * n + ((a % d) * n) / d,
        0 <= (a % d) * n < d * n || n == 0,
        0 <= (a / d) * n <= (a * n) / d,
{
    let q = a / d;
    let r = a % d;
    lemma_fundamental_div_mod(a, d);
    let s = (r * n) / d;
    let t = (r * n) % d;
    assert(0 <= r * n) by (nonlinear_arith)
        requires
            0 <= r,
            n >= 0,
    ;
    lemma_fundamental_div_mod(r * n, d);
    assert(a * n == (q * n + s) * d + t) by (nonlinear_arith)
        requires
            a == d * q + r,
            r * n == d * s + t,
    ;
    lemma_fundamental_div_mod_converse(a * n, d, q * n + s, t);
    assert(0 <= s) by (nonlinear_arith)
        requires
            s == (r * n) / d,
            r * n >= 0,
            d > 0,
    ;
    assert(0 <= q * n) by (nonlinear_arith)
        requires
            q >= 0,
            n >= 0,
    ;
    assert(r * n < d * n || n == 0) by (nonlinear_arith)
        requires
            0 <= r < d,
            n >= 0,
    ;
}

/// Computes `(value * numer) / denom` without forming the full product, as
/// long as `numer * denom` and the result fit in an `i64`.
pub fn mul_div_i64(value: i64, numer: i64, denom: i64) -> (r: i64)
    requires
        denom > 0,
        numer >= 0,
        numer * denom <= i64::MAX,
        i64::MIN <= mul_div_spec(value as int, numer as int, denom as int) <= i64::MAX,
    ensures
        r == mul_div_spec(value as int, numer as int, denom as int),
{
    let q = value / denom;
    let r = value % denom;
    proof {
        let a = value as int;
        let d = denom as int;
        let n = numer as int;
        assert(q == trunc_div(a, d));
        assert(d * n <= i64::MAX) by (nonlinear_arith)
            requires
                n * d <= i64::MAX,
        ;
        if a >= 0 {
            lemma_mul_div_split(a, n, d);
            lemma_fundamental_div_mod(a, d);
            assert(r == a % d);
            assert(0 <= r * n <= i64::MAX);
            assert(0 <= q * n <= mul_div_spec(a, n, d));
        } else {
            lemma_mul_div_split(-a, n, d);
            lemma_fundamental_div_mod(-a, d);
            assert(r == -((-a) % d));
            assert(a * n == -((-a) * n)) by (nonlinear_arith);
            assert(r * n == -(((-a) % d) * n)) by (nonlinear_arith)
                requires
                    r == -((-a) % d),
            ;
            assert(q * n == -(((-a) / d) * n)) by (nonlinear_arith)
                requires
                    q == -((-a) / d),
            ;
            assert(i64::MIN <= r * n <= 0);
            assert(mul_div_spec(a, n, d) <= q * n <= 0);
        }
    }
    q * numer + r * numer / denom
}

} // verus!

verus! {

/// A reading of the trace clock, in ticks of its stopwatch.
#[derive(Clone, Copy, PartialEq, Eq, Structural, Debug)]
pub struct TimePoint(pub i64);

/// Elapsed microseconds from tick `a` to tick `b` of a clock that runs at
/// `frequency` ticks per second: zero when `b` does not come after `a`,
/// rounded down otherwise, and `i64::MAX` for spans that do not fit.
pub open spec fn micros_between(a: int, b: int, frequency: int) -> int {
    if b <= a {
        0
    } else {
        let m = ((b - a) * MICROS_PER_SECOND) / frequency;
        if m > i64::MAX {
            i64::MAX as int
        } else {
            m
        }
    }
}

/// Converts tick counts of one clock into microseconds.
#[derive(Clone, Copy, Debug)]
pub struct StopWatch {
    frequency: i64,
}

impl StopWatch {
    #[verifier::type_invariant]
    spec fn inv(self) -> bool {
        0 < self.frequency <= MAX_FREQUENCY
    }

    /// Ticks per second of the clock this stopwatch reads.
    pub closed spec fn spec_frequency(&self) -> int {
        self.frequency as int
    }

    /// A stopwatch for a clock of `frequency` ticks per second; `None` when
    /// the frequency is not positive or exceeds `MAX_FREQUENCY`.
    pub fn new(frequency: i64) -> (r: Option<StopWatch>)
        ensures
            r is Some <==> 0 < frequency <= MAX_FREQUENCY,
            r matches Some(w) ==> w.spec_frequency() == frequency,
    {
        if 0 < frequency && frequency <= MAX_FREQUENCY {
            Some(StopWatch { frequency })
        } else {
            None
        }
    }

    /// Ticks per second of the clock this stopwatch reads.
    pub fn frequency(&self) -> (r: i64)
        ensures
            r == self.spec_frequency(),
            0 < r <= MAX_FREQUENCY,
    {
        proof {
            use_type_invariant(self);
        }
        self.frequency
    }

    /// Microseconds elapsed from `a` to `b` (see `micros_between`).
    pub fn get_milliseconds(&self, a: &TimePoint, b: &TimePoint) -> (r: i64)
        ensures
            r == micros_between(a.0 as int, b.0 as int, self.spec_frequency()),
            r >= 0,
    {
        proof {
            use_type_invariant(self);
        }
        if b.0 <= a.0 {
            return 0;
        }
        let span: u128 = (b.0 as i128 - a.0 as i128) as u128;
        assert(span * 1_000_000 <= u128::MAX) by (nonlinear_arith)
            requires
                span < 0x1_0000_0000_0000_0000,
        ;
        let m: u128 = span * 1_000_000 / (self.frequency as u128);
        if m > i64::MAX as u128 {
            i64::MAX
        } else {
            m as i64
        }
    }
}

} // verus!
