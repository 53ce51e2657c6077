use vstd::prelude::*;

verus! {

/// The largest span a `std::time::Duration` holds, in nanoseconds
/// (`u64::MAX` seconds and 999_999_999 nanoseconds).
pub const MAX_NANOS: u128 = 18446744073709551615999999999u128;

pub const NANOS_PER_SEC: u128 = 1000000000u128;

/// A span of time, counted in nanoseconds; it has the range of `std::time::Duration`.
#[derive(Debug, Clone, Copy, PartialEq, Eq, Structural)]
pub struct Duration {
    nanos: u128,
}

/// A point of a monotonic clock, counted in nanoseconds from an origin that the
/// caller chooses; it has the range of a `Duration`.
#[derive(Debug, Clone, Copy, PartialEq, Eq, Structural)]
pub struct Instant {
    nanos: u128,
}

/// What `Duration / u32` gives in `std`: the quotient by `rhs`, computed on the
/// seconds and the nanoseconds with the remainder of the seconds carried over.
pub open spec fn spec_div(d: nat, rhs: nat) -> nat
    recommends
        rhs > 0,
{
    let secs = d / (NANOS_PER_SEC as nat);
    let sub = d % (NANOS_PER_SEC as nat);
    (secs / rhs) * (NANOS_PER_SEC as nat) + sub / rhs + ((secs % rhs) * (NANOS_PER_SEC as nat)
        + sub % rhs) / rhs
}

impl Duration {
    #[verifier::type_invariant]
    spec fn inv(self) -> bool {
        self.nanos <= MAX_NANOS
    }

    /// The span in nanoseconds.
    pub closed spec fn ns(self) -> nat {
        self.nanos as nat
    }

    pub fn zero() -> (d: Self)
        ensures
            d.ns() == 0,
    {
        Duration { nanos: 0 }
    }

    pub fn from_nanos(nanos: u128) -> (d: Self)
        requires
            nanos <= MAX_NANOS,
        ensures
            d.ns() == nanos,
    {
        Duration { nanos }
    }

    pub fn from_micros(micros: u64) -> (d: Self)
        ensures
            d.ns() == micros * 1000,
    {
        Duration { nanos: micros as u128 * 1000 }
    }

    pub fn from_millis(millis: u64) -> (d: Self)
        ensures
            d.ns() == millis * 1000000,
    {
        Duration { nanos: millis as u128 * 1000000 }
    }

    pub fn as_nanos(&self) -> (n: u128)
        ensures
            n == self.ns(),
            n <= MAX_NANOS,
    {
        proof {
            use_type_invariant(self);
        }
        self.nanos
    }

    pub fn lt(&self, other: &Self) -> (b: bool)
        ensures
            b == (self.ns() < other.ns()),
    {
        self.nanos < other.nanos
    }

    pub fn le(&self, other: &Self) -> (b: bool)
        ensures
            b == (self.ns() <= other.ns()),
    {
        self.nanos <= other.nanos
    }

    /// `self + other`; `std` panics where the sum leaves the range.
    pub fn add(self, other: Self) -> (d: Self)
        requires
            self.ns() + other.ns() <= MAX_NANOS,
        ensures
            d.ns() == self.ns() + other.ns(),
    {
        Duration { nanos: self.nanos + other.nanos }
    }

    /// `self - other`; `std` panics where `other` is the longer span.
    pub fn sub(self, other: Self) -> (d: Self)
        requires
            other.ns() <= self.ns(),
        ensures
            d.ns() == self.ns() - other.ns(),
    {
        proof {
            use_type_invariant(&self);
        }
        Duration { nanos: self.nanos - other.nanos }
    }

    /// `self / rhs`; `std` panics where `rhs` is zero.
    pub fn div(self, rhs: u32) -> (d: Self)
        requires
            rhs > 0,
        ensures
            d.ns() == spec_div(self.ns(), rhs as nat),
            d.ns() <= self.ns(),
    {
        proof {
            use_type_invariant(&self);
        }
        let r = rhs as u128;
        let secs = self.nanos / NANOS_PER_SEC;
        let sub = self.nanos % NANOS_PER_SEC;
        let q_secs = secs / r;
        let extra_secs = secs % r;
        let q_sub = sub / r;
        let extra_sub = sub % r;
        proof {
            assert(sub < 1000000000u128);
            assert(extra_sub <= sub) by (nonlinear_arith)
                requires
                    extra_sub == sub % r,
                    r > 0,
            ;
            assert(extra_secs * 1000000000u128 + extra_sub < r * 1000000000u128) by (nonlinear_arith)
                requires
                    extra_secs < r,
                    extra_sub < 1000000000u128,
            ;
            assert(r * 1000000000u128 <= 0xffff_ffffu128 * 1000000000u128) by (nonlinear_arith)
                requires
                    r <= 0xffff_ffffu128,
            ;
            lemma_div_exact(self.nanos as int, r as int);
            assert(self.nanos as int / r as int <= self.nanos as int) by (nonlinear_arith)
                requires
                    r >= 1,
            ;
        }
        let carry = (extra_secs * NANOS_PER_SEC + extra_sub) / r;
        Duration { nanos: q_secs * NANOS_PER_SEC + q_sub + carry }
    }
}

/// The carried quotient that `Duration / u32` computes is the floor of the quotient.
proof fn lemma_div_exact(d: int, r: int)
    requires
        0 <= d,
        r > 0,
    ensures
        (d / 1000000000 / r) * 1000000000 + (d % 1000000000) / r + (((d / 1000000000) % r)
            * 1000000000 + (d % 1000000000) % r) / r == d / r,
{
    let s = d / 1000000000;
    let n = d % 1000000000;
    let big_s = s / r;
    let es = s % r;
    let q = n / r;
    let m = n % r;
    assert(d == s * 1000000000 + n) by (nonlinear_arith)
        requires
            s == d / 1000000000,
            n == d % 1000000000,
    ;
    assert(s == big_s * r + es) by (nonlinear_arith)
        requires
            big_s == s / r,
            es == s % r,
            r > 0,
    ;
    assert(n == q * r + m) by (nonlinear_arith)
        requires
            q == n / r,
            m == n % r,
            r > 0,
    ;
    assert(d == (big_s * 1000000000 + q) * r + (es * 1000000000 + m)) by (nonlinear_arith)
        requires
            d == s * 1000000000 + n,
            s == big_s * r + es,
            n == q * r + m,
    ;
    let t = es * 1000000000 + m;
    assert(t >= 0) by (nonlinear_arith)
        requires
            es >= 0,
            m >= 0,
            t == es * 1000000000 + m,
    ;
    assert(d / r == big_s * 1000000000 + q + t / r) by (nonlinear_arith)
        requires
            d == (big_s * 1000000000 + q) * r + t,
            r > 0,
            t >= 0,
            big_s >= 0,
            q >= 0,
    ;
}

/// `Duration / u32` is the floor of the quotient of the spans in nanoseconds.
pub proof fn lemma_duration_div_floor(d: nat, rhs: nat)
    requires
        rhs > 0,
    ensures
        spec_div(d, rhs) == d / rhs,
{
    lemma_div_exact(d as int, rhs as int);
}

impl Instant {
    #[verifier::type_invariant]
    spec fn inv(self) -> bool {
        self.nanos <= MAX_NANOS
    }

    /// The point in nanoseconds from the origin.
    pub closed spec fn ns(self) -> nat {
        self.nanos as nat
    }

    pub fn from_nanos(nanos: u128) -> (i: Self)
        requires
            nanos <= MAX_NANOS,
        ensures
            i.ns() == nanos,
    {
        Instant { nanos }
    }

    pub fn as_nanos(&self) -> (n: u128)
        ensures
            n == self.ns(),
            n <= MAX_NANOS,
    {
        proof {
            use_type_invariant(self);
        }
        self.nanos
    }

    pub fn lt(&self, other: &Self) -> (b: bool)
        ensures
            b == (self.ns() < other.ns()),
    {
        self.nanos < other.nanos
    }

    pub fn le(&self, other: &Self) -> (b: bool)
        ensures
            b == (self.ns() <= other.ns()),
    {
        self.nanos <= other.nanos
    }

    /// `self + d`; `std` panics where the point leaves the clock's range.
    pub fn add(self, d: Duration) -> (i: Self)
        requires
            self.ns() + d.ns() <= MAX_NANOS,
        ensures
            i.ns() == self.ns() + d.ns(),
    {
        Instant { nanos: self.nanos + d.as_nanos() }
    }

    /// `self - d`; `std` panics where the point leaves the clock's range.
    pub fn sub(self, d: Duration) -> (i: Self)
        requires
            d.ns() <= self.ns(),
        ensures
            i.ns() == self.ns() - d.ns(),
    {
        proof {
            use_type_invariant(&self);
        }
        Instant { nanos: self.nanos - d.as_nanos() }
    }

    /// `self - earlier`: the span from `earlier` to `self`, zero where `earlier`
    /// is the later point (`std` saturates there).
    pub fn since(self, earlier: Self) -> (d: Duration)
        ensures
            d.ns() == if earlier.ns() <= self.ns() { self.ns() - earlier.ns() } else { 0 },
    {
        proof {
            use_type_invariant(&self);
            use_type_invariant(&earlier);
        }
        if earlier.nanos <= self.nanos {
            Duration::from_nanos(self.nanos - earlier.nanos)
        } else {
            Duration::zero()
        }
    }
}

} // verus!
