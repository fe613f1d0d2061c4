//! Durations, the scan cadence and the wall clock.
use vstd::arithmetic::power2::{lemma_pow2_adds, lemma_pow2_pos, lemma_pow2_unfold, pow2};
use vstd::prelude::*;

verus! {

/// A span of time in nanoseconds.
#[derive(Clone, Copy, PartialEq, Eq, Structural, Debug)]
pub struct Duration {
    pub nanos: u128,
}

/// Nanoseconds of a second.
pub const NANOS_PER_SEC: u128 = 1_000_000_000;

/// Nanoseconds of a millisecond.
pub const NANOS_PER_MILLI: u128 = 1_000_000;

/// The longest idle cadence: thirty seconds.
pub const MAX_BACKOFF_NANOS: u128 = 30_000_000_000;

impl Duration {
    /// `secs` seconds.
    pub fn from_secs(secs: u64) -> (r: Self)
        ensures
            r.nanos == secs * NANOS_PER_SEC,
    {
        Duration { nanos: secs as u128 * NANOS_PER_SEC }
    }

    /// `millis` milliseconds.
    pub fn from_millis(millis: u64) -> (r: Self)
        ensures
            r.nanos == millis * NANOS_PER_MILLI,
    {
        Duration { nanos: millis as u128 * NANOS_PER_MILLI }
    }

    /// Whether the span is empty.
    pub fn is_zero(&self) -> (r: bool)
        ensures
            r == (self.nanos == 0),
    {
        self.nanos == 0
    }
}

/// The stretched cadence: the base doubled per idle tick, thirty seconds at
/// most.
pub open spec fn stretched(base: nat, idle_ticks: nat) -> nat {
    let long = base * pow2(idle_ticks);
    if long < MAX_BACKOFF_NANOS {
        long
    } else {
        MAX_BACKOFF_NANOS as nat
    }
}

proof fn lemma_doubling(base: nat, k: nat, n: nat)
    requires
        k <= n,
    ensures
        base * pow2(k) <= base * pow2(n),
        base * pow2(k + 1) == 2 * (base * pow2(k)),
{
    lemma_pow2_adds(k, (n - k) as nat);
    lemma_pow2_pos((n - k) as nat);
    lemma_pow2_unfold(k + 1);
    assert(base * pow2(k) <= base * (pow2(k) * pow2((n - k) as nat))) by (nonlinear_arith)
        requires
            pow2((n - k) as nat) >= 1,
    ;
    assert(base * (2 * pow2(k)) == 2 * (base * pow2(k))) by (nonlinear_arith);
}

/// Idle-stretched cadence: `base` doubled per idle tick, thirty seconds at
/// most.
pub fn idle_wait(base: Duration, idle_ticks: u32) -> (r: Duration)
    ensures
        r.nanos == stretched(base.nanos as nat, idle_ticks as nat),
{
    if base.nanos == 0 {
        assert(0 * pow2(idle_ticks as nat) == 0) by (nonlinear_arith);
        return base;
    }
    let mut long: u128 = base.nanos;
    let mut k: u32 = 0;
    proof {
        vstd::arithmetic::power2::lemma2_to64();
        assert(base.nanos * pow2(0) == base.nanos) by (nonlinear_arith)
            requires
                pow2(0) == 1,
        ;
    }
    while k < idle_ticks && long < MAX_BACKOFF_NANOS
        invariant
            k <= idle_ticks,
            long == base.nanos * pow2(k as nat),
        decreases idle_ticks - k,
    {
        proof {
            lemma_doubling(base.nanos as nat, k as nat, idle_ticks as nat);
        }
        long = long * 2;
        k = k + 1;
    }
    proof {
        lemma_doubling(base.nanos as nat, k as nat, idle_ticks as nat);
    }
    if long < MAX_BACKOFF_NANOS {
        Duration { nanos: long }
    } else {
        Duration { nanos: MAX_BACKOFF_NANOS }
    }
}

/// Cadence of the scan: idle ticks stretch it only while the event watcher
/// is live, else a short interval would grow with nothing to wake the scan.
pub fn scan_cadence(base: Duration, idle_ticks: u32, watcher_live: bool) -> (r: Duration)
    ensures
        r.nanos == if watcher_live {
            stretched(base.nanos as nat, idle_ticks as nat)
        } else {
            base.nanos as nat
        },
{
    if watcher_live {
        idle_wait(base, idle_ticks)
    } else {
        base
    }
}

/// More idle ticks never shorten the cadence, and it never exceeds the cap.
pub proof fn law_cadence_is_monotone(base: nat, few: nat, many: nat)
    requires
        few <= many,
    ensures
        stretched(base, few) <= stretched(base, many),
        stretched(base, many) <= MAX_BACKOFF_NANOS,
        base <= MAX_BACKOFF_NANOS ==> base <= stretched(base, few),
{
    lemma_doubling(base, few, many);
    lemma_doubling(base, 0, few);
    vstd::arithmetic::power2::lemma2_to64();
    assert(base * pow2(0) == base) by (nonlinear_arith)
        requires
            pow2(0) == 1,
    ;
}

/// Time since the epoch: whole seconds and the nanoseconds on top.
pub type Clock = Option<(u64, u32)>;

/// `SystemTime::elapsed` of the epoch; nothing when the clock stands before
/// it. Of the time itself nothing is said.
#[verifier::external_body]
pub(crate) fn clock() -> (r: Clock)
    ensures
        r matches Some(t) ==> t.1 < 1_000_000_000,
{
    std::time::UNIX_EPOCH.elapsed().ok().map(|t| (t.as_secs(), t.subsec_nanos()))
}

/// Whole seconds of a clock reading; zero before the epoch.
pub fn clock_secs(clock: Clock) -> (r: u64)
    ensures
        r == match clock {
            Some(t) => t.0,
            None => 0,
        },
{
    match clock {
        Some(t) => t.0,
        None => 0,
    }
}

/// Milliseconds of a clock reading; zero before the epoch and where the
/// number does not fit.
pub open spec fn millis_of(clock: Clock) -> int {
    match clock {
        Some(t) => if t.0 * 1000 + t.1 as int / 1_000_000 <= i64::MAX {
            t.0 * 1000 + t.1 as int / 1_000_000
        } else {
            0
        },
        None => 0,
    }
}

/// Milliseconds of a clock reading.
pub fn clock_millis(clock: Clock) -> (r: i64)
    ensures
        r == millis_of(clock),
{
    match clock {
        Some(t) => {
            let total: u128 = t.0 as u128 * 1000 + (t.1 / 1_000_000) as u128;
            if total <= 0x7fff_ffff_ffff_ffff {
                total as i64
            } else {
                0
            }
        },
        None => 0,
    }
}

} // verus!
