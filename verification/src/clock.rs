//! Wall-clock readings, kept as whole seconds and nanoseconds since the
//! UNIX epoch.

use vstd::prelude::*;

verus! {

/// A time since the UNIX epoch.
#[derive(Debug, Clone, Copy, PartialEq, Eq, Structural)]
pub struct Timestamp {
    /// Whole seconds.
    pub secs: u64,
    /// Nanoseconds past the second (below one billion).
    pub nanos: u32,
}

impl Timestamp {
    /// The epoch itself.
    pub fn zero() -> (t: Timestamp)
        ensures
            t.secs == 0,
            t.nanos == 0,
    {
        Timestamp { secs: 0, nanos: 0 }
    }

    /// Whole microseconds since the epoch, as `Duration::as_micros` gives
    /// them.
    pub open spec fn micros(self) -> int {
        self.secs * 1_000_000 + self.nanos / 1000
    }

    /// Whole microseconds since the epoch.
    pub fn as_micros(&self) -> (m: u128)
        ensures
            m == self.micros(),
    {
        (self.secs as u128) * 1_000_000 + ((self.nanos / 1000) as u128)
    }
}

#[verifier::external_type_specification]
#[verifier::external_body]
pub struct ExSystemTime(std::time::SystemTime);

/// `SystemTime::now`: the current wall-clock time; nothing is known of
/// its value.
#[verifier::external_body]
fn system_now() -> std::time::SystemTime {
    std::time::SystemTime::now()
}

/// `SystemTime::duration_since(UNIX_EPOCH)`: how long after the epoch a
/// time lies, or `None` for a time before it; the nanoseconds part of a
/// `Duration` is below one billion.
#[verifier::external_body]
fn since_epoch(t: &std::time::SystemTime) -> (r: Option<Timestamp>)
    ensures
        r matches Some(ts) ==> ts.nanos < 1_000_000_000,
{
    match t.duration_since(std::time::UNIX_EPOCH) {
        Ok(d) => Some(Timestamp { secs: d.as_secs(), nanos: d.subsec_nanos() }),
        Err(_) => None,
    }
}

/// The current time since the epoch (the epoch itself when the clock
/// reads earlier).
pub fn now() -> (t: Timestamp)
    ensures
        t.nanos < 1_000_000_000,
{
    let st = system_now();
    match since_epoch(&st) {
        Some(ts) => ts,
        None => Timestamp::zero(),
    }
}

/// A bound above every clock reading in microseconds.
pub open spec fn micros_bound() -> int {
    0x1_0000_0000_0000_0000_0000_0000
}

/// The current time in whole microseconds since the epoch.
pub fn now_micros() -> (m: u128)
    ensures
        m < micros_bound(),
{
    let t = now();
    proof {
        let s = t.secs as int;
        assert(s * 1_000_000 <= 0xFFFF_FFFF_FFFF_FFFF * 1_000_000) by (nonlinear_arith)
            requires
                0 <= s <= 0xFFFF_FFFF_FFFF_FFFF,
        ;
    }
    t.as_micros()
}

} // verus!
