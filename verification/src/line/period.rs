//! A span of time with nanosecond resolution, such as a debounce period.
use vstd::prelude::*;

verus! {

/// The number of nanoseconds in a second.
pub const NANOS_PER_SEC: u128 = 1_000_000_000;

/// A span of time, held as a whole number of nanoseconds.
///
/// The range is that of a whole number of seconds held in a `u64` plus a
/// fraction of a second.
#[derive(Clone, Copy, Debug, PartialEq, Eq, Structural)]
pub struct Period {
    nanos: u128,
}

impl View for Period {
    type V = nat;

    /// The length of the period in nanoseconds.
    closed spec fn view(&self) -> nat {
        self.nanos as nat
    }
}

/// The number of whole microseconds covering a period of `nanos`
/// nanoseconds, that is the nanoseconds divided by 1000 and rounded up.
pub open spec fn micros_rounded_up(nanos: nat) -> nat {
    ((nanos + 999) / 1000) as nat
}

impl Period {
    /// The zero length period.
    pub fn zero() -> (p: Period)
        ensures
            p@ == 0,
    {
        Period { nanos: 0 }
    }

    /// A period of `secs` seconds and `nanos` nanoseconds.
    ///
    /// Nanoseconds beyond a second carry into the seconds, which must not
    /// overflow.
    pub fn new(secs: u64, nanos: u32) -> (p: Period)
        requires
            secs + nanos / 1_000_000_000 <= u64::MAX,
        ensures
            p@ == secs * 1_000_000_000 + nanos,
    {
        let n: u128 = (secs as u128) * NANOS_PER_SEC + (nanos as u128);
        Period { nanos: n }
    }

    /// A period of `nanos` nanoseconds.
    pub fn from_nanos(nanos: u64) -> (p: Period)
        ensures
            p@ == nanos,
    {
        Period { nanos: nanos as u128 }
    }

    /// The period of `micros` microseconds.
    pub closed spec fn micros_spec(micros: u64) -> Period {
        Period { nanos: (micros * 1000) as u128 }
    }

    /// The length of the period of `micros` microseconds.
    pub proof fn lemma_micros_spec(micros: u64)
        ensures
            Period::micros_spec(micros)@ == micros * 1000,
    {
    }

    /// A period of `micros` microseconds.
    pub fn from_micros(micros: u64) -> (p: Period)
        ensures
            p == Period::micros_spec(micros),
            p@ == micros * 1000,
    {
        Period { nanos: (micros as u128) * 1000 }
    }

    /// A period of `millis` milliseconds.
    pub fn from_millis(millis: u64) -> (p: Period)
        ensures
            p@ == millis * 1_000_000,
    {
        Period { nanos: (millis as u128) * 1_000_000 }
    }

    /// A period of `secs` seconds.
    pub fn from_secs(secs: u64) -> (p: Period)
        ensures
            p@ == secs * 1_000_000_000,
    {
        Period { nanos: (secs as u128) * NANOS_PER_SEC }
    }

    /// The length of the period in nanoseconds.
    pub fn as_nanos(&self) -> (n: u128)
        ensures
            n == self@,
    {
        self.nanos
    }

    /// The number of whole seconds in the period.
    pub fn as_secs(&self) -> (s: u64)
        ensures
            s == (self@ / 1_000_000_000) as u64,
    {
        (self.nanos / NANOS_PER_SEC) as u64
    }

    /// The fractional part of the period, in nanoseconds.
    pub fn subsec_nanos(&self) -> (n: u32)
        ensures
            n == self@ % 1_000_000_000,
    {
        (self.nanos % NANOS_PER_SEC) as u32
    }

    /// Return true if the period has zero length.
    pub fn is_zero(&self) -> (r: bool)
        ensures
            r == (self@ == 0),
    {
        self.nanos == 0
    }

    /// The period in microseconds, rounded up to the next whole
    /// microsecond, as held in the 32 bit debounce attribute of the uAPI.
    ///
    /// Periods beyond the range of the attribute are truncated to its low
    /// 32 bits.
    pub fn as_micros_rounded_up(&self) -> (us: u32)
        ensures
            us == micros_rounded_up(self@) as u32,
    {
        let whole: u128 = self.nanos / 1000;
        let us: u128 = if self.nanos % 1000 != 0 {
            whole + 1
        } else {
            whole
        };
        assert(us == micros_rounded_up(self@));
        us as u32
    }
}

/// A period of whole microseconds, such as a debounce period read from the
/// uAPI, is written back to the uAPI as the same number of microseconds.
pub proof fn lemma_micros_roundtrip(us: u32)
    ensures
        micros_rounded_up(Period::micros_spec(us as u64)@) as u32 == us,
{
    Period::lemma_micros_spec(us as u64);
    let n: int = us as int;
    assert((n * 1000 + 999) / 1000 == n) by (nonlinear_arith)
        requires
            n >= 0,
    ;
}

} // verus!
