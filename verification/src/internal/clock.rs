//! Where "now" comes from: the wall clock, or a fixed instant in tests.

use vstd::prelude::*;

use crate::internal::evidence::Timestamp;
use std::sync::atomic::AtomicU64;
use std::sync::atomic::Ordering;

verus! {

/// A source of the current instant; `None` when the instant cannot be
/// had (a system clock set before the Unix epoch).
pub trait Clock {
    fn now(&self) -> Option<Timestamp>;
}

#[verifier::external_type_specification]
#[verifier::external_body]
pub struct ExSystemTime(std::time::SystemTime);

#[verifier::external_type_specification]
#[verifier::external_body]
pub struct ExSystemTimeError(std::time::SystemTimeError);

/// `SystemTime::now` of std: the wall-clock time of the call. Nothing is
/// claimed of it.
#[verifier::external_body]
fn wall_clock() -> std::time::SystemTime {
    std::time::SystemTime::now()
}

/// `SystemTime::duration_since(UNIX_EPOCH)` of std: how long after the
/// Unix epoch `t` is, or an error when it is before. Nothing is claimed
/// of which: it depends on the clock.
#[verifier::external_body]
fn since_unix_epoch(t: &std::time::SystemTime) -> Result<core::time::Duration, std::time::SystemTimeError> {
    t.duration_since(std::time::UNIX_EPOCH)
}

/// `Duration::as_secs` of std: the whole seconds of `d`.
#[verifier::external_body]
fn duration_secs(d: &core::time::Duration) -> u64 {
    d.as_secs()
}

/// `Duration::subsec_nanos` of std: the nanoseconds past the whole
/// seconds of `d`, below one second.
#[verifier::external_body]
fn duration_subsec_nanos(d: &core::time::Duration) -> (r: u32)
    ensures
        r < 1_000_000_000,
{
    d.subsec_nanos()
}

/// `Duration::as_millis` of std: the whole milliseconds of `d`.
#[verifier::external_body]
fn duration_millis(d: &core::time::Duration) -> u128 {
    d.as_millis()
}

/// The current time as seconds and nanoseconds after the Unix epoch;
/// `None` when the clock reads before the epoch or past what `i64`
/// seconds hold.
fn system_now() -> Option<Timestamp> {
    let t = wall_clock();
    match since_unix_epoch(&t) {
        Ok(d) => {
            let secs = duration_secs(&d);
            if secs <= i64::MAX as u64 {
                Some(Timestamp { secs: secs as i64, nanos: duration_subsec_nanos(&d) })
            } else {
                None
            }
        },
        Err(_) => None,
    }
}

/// The current time in milliseconds after the Unix epoch; `None` when the
/// clock reads before the epoch.
pub(crate) fn system_millis() -> Option<u128> {
    let t = wall_clock();
    match since_unix_epoch(&t) {
        Ok(d) => Some(duration_millis(&d)),
        Err(_) => None,
    }
}

/// The real wall clock.
pub struct SystemClock;

impl Clock for SystemClock {
    fn now(&self) -> Option<Timestamp> {
        system_now()
    }
}

/// Always the same instant: output that does not change between runs.
pub struct FixedClock {
    pub instant: Timestamp,
}

impl Clock for FixedClock {
    fn now(&self) -> (r: Option<Timestamp>)
        ensures
            r == Some(self.instant),
    {
        Some(self.instant)
    }
}

/// A signed span of time: whole seconds and the nanoseconds past them
/// (below one second), as a `chrono::TimeDelta` holds it.
#[derive(Debug, Clone, Copy, PartialEq, Eq, Structural)]
pub struct Span {
    pub secs: i64,
    pub nanos: u32,
}

/// The value of `n` cut to 32 bits and read as a signed `i32`.
pub open spec fn wrapped_i32(n: u64) -> int {
    let m = n % 0x1_0000_0000;
    if m < 0x8000_0000 {
        m as int
    } else {
        m - 0x1_0000_0000
    }
}

/// `start` plus `k` steps, in nanoseconds since the epoch.
pub open spec fn step_total(start: Timestamp, step: Span, k: int) -> int {
    start.secs * 1_000_000_000 + start.nanos + (step.secs * 1_000_000_000 + step.nanos) * k
}

/// The instant of the `n`-th reading (from 0) of a step clock: `start`
/// plus `n` steps, the count taken as an `i32`; `None` when its seconds
/// leave `i64`.
pub open spec fn step_instant(start: Timestamp, step: Span, n: u64) -> Option<Timestamp> {
    let total = step_total(start, step, wrapped_i32(n));
    let s = total / 1_000_000_000;
    if i64::MIN <= s <= i64::MAX {
        Some(Timestamp { secs: s as i64, nanos: (total % 1_000_000_000) as u32 })
    } else {
        None
    }
}

fn step_instant_exec(start: Timestamp, step: Span, n: u64) -> (r: Option<Timestamp>)
    ensures
        r == step_instant(start, step, n),
{
    let m: u64 = n % 0x1_0000_0000;
    let k: i128 = if m < 0x8000_0000 { m as i128 } else { m as i128 - 0x1_0000_0000 };
    let d: i128 = 1_000_000_000;
    let span: i128 = step.secs as i128 * d + step.nanos as i128;
    assert(-0x8000_0000_0000_0005 * 1_000_000_000 <= span <= 0x8000_0000_0000_0005 * 1_000_000_000) by (nonlinear_arith)
        requires
            span == step.secs * 1_000_000_000 + step.nanos,
            step.nanos <= 0xffff_ffff,
            i64::MIN <= step.secs <= i64::MAX,
    ;
    assert(-0x8000_0000 <= k <= 0x8000_0000);
    assert(-0x8000_0000_0000_0005 * 1_000_000_000 * 0x8000_0000 <= span * k <= 0x8000_0000_0000_0005 * 1_000_000_000 * 0x8000_0000) by (nonlinear_arith)
        requires
            -0x8000_0000 <= k <= 0x8000_0000,
            -0x8000_0000_0000_0005 * 1_000_000_000 <= span <= 0x8000_0000_0000_0005 * 1_000_000_000,
    ;
    let moved: i128 = span * k;
    let base: i128 = start.secs as i128 * d + start.nanos as i128;
    let total: i128 = base + moved;
    let off: i128 = 1_000_000_000 * 0x1_0000_0000_0000_0000_0000_0000;
    let shifted: u128 = (total + off) as u128;
    let q: u128 = shifted / 1_000_000_000;
    let rem: u128 = shifted % 1_000_000_000;
    proof {
        assert(m == n % 0x1_0000_0000);
        assert(k == wrapped_i32(n));
        assert(total == step_total(start, step, wrapped_i32(n)));
        assert(shifted == q * 1_000_000_000 + rem);
        let qq: int = q as int - 0x1_0000_0000_0000_0000_0000_0000;
        assert(total == qq * 1_000_000_000 + rem);
        vstd::arithmetic::div_mod::lemma_fundamental_div_mod_converse(total as int, 1_000_000_000, qq, rem as int);
    }
    let secs: i128 = q as i128 - 0x1_0000_0000_0000_0000_0000_0000;
    if secs < -0x8000_0000_0000_0000 || secs > 0x7fff_ffff_ffff_ffff {
        None
    } else {
        Some(Timestamp { secs: secs as i64, nanos: rem as u32 })
    }
}

/// Advances by a fixed step on each reading: the `n`-th reading (from 0)
/// is `start` plus `n` steps.
pub struct StepClock {
    pub start: Timestamp,
    pub step: Span,
    /// How many readings were taken.
    pub counter: AtomicU64,
}

impl StepClock {
    pub fn new(start: Timestamp, step: Span) -> (r: Self)
        ensures
            r.start == start,
            r.step == step,
    {
        StepClock { start, step, counter: AtomicU64::new(0) }
    }

    fn next_count(&self) -> u64 {
        self.counter.fetch_add(1, Ordering::SeqCst)
    }
}

impl Clock for StepClock {
    /// `start` plus as many steps as there were readings before; the count
    /// is shared by every reader, so only that it is some count is stated.
    fn now(&self) -> (r: Option<Timestamp>)
        ensures
            exists|n: u64| r == step_instant(self.start, self.step, n),
    {
        let n = self.next_count();
        step_instant_exec(self.start, self.step, n)
    }
}

} // verus!
