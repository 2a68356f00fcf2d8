//! Calendar instants as held by the comment store.
//!
//! The store writes an instant as a double counting fractional seconds since the Unix epoch.
//! Here an instant is held exactly, as whole seconds and the nanoseconds past them; turning the
//! double into its whole part and its fraction in nanoseconds is the caller's side of the codec.

use vstd::prelude::*;

verus! {

/// Nanoseconds in one second.
pub const NANOS_PER_SEC: u32 = 1_000_000_000;

/// First second of the calendar: year -262143, January 1, 00:00:00 UTC.
pub const MIN_SECS: i64 = -8334601228800;

/// Last second of the calendar: year 262142, December 31, 23:59:59 UTC.
pub const MAX_SECS: i64 = 8210266876799;

/// Whether the second `secs` (counted from the Unix epoch) belongs to the calendar.
pub open spec fn in_calendar(secs: int) -> bool {
    MIN_SECS <= secs <= MAX_SECS
}

/// Relies on chrono's `DateTime::<Utc>::from_timestamp`: for a nanosecond part under one second
/// it returns `Some` exactly when the day of `secs` lies between year -262143, January 1 and
/// year 262142, December 31, chrono's `NaiveDate::MIN` and `NaiveDate::MAX`.
#[verifier::external_body]
fn calendar_has(secs: i64, nanos: u32) -> (r: bool)
    requires
        nanos < NANOS_PER_SEC,
    ensures
        r == in_calendar(secs as int),
{
    chrono::DateTime::<chrono::Utc>::from_timestamp(secs, nanos).is_some()
}

/// An instant in UTC: whole seconds since the Unix epoch and the nanoseconds past that second.
#[derive(Clone, Copy, Debug, PartialEq, Eq, Structural)]
pub struct FloatDateTime {
    pub secs: i64,
    pub nanos: u32,
}

impl View for FloatDateTime {
    /// Nanoseconds since the Unix epoch.
    type V = int;

    open spec fn view(&self) -> int {
        self.secs * NANOS_PER_SEC + self.nanos
    }
}

impl FloatDateTime {
    /// A well-formed instant: a nanosecond part under one second, in a second of the calendar.
    pub open spec fn wf(self) -> bool {
        self.nanos < NANOS_PER_SEC && in_calendar(self.secs as int)
    }

    /// The instant that a stored value decodes to, given its whole seconds and its fractional
    /// part in nanoseconds (already rounded): a fraction of a full second carries into the next
    /// second; a negative fraction, one above a second, or a second outside the calendar
    /// decodes to nothing.
    pub open spec fn decode_spec(whole: int, frac_nanos: int) -> Option<FloatDateTime> {
        let secs = whole + frac_nanos / (NANOS_PER_SEC as int);
        if 0 <= frac_nanos <= NANOS_PER_SEC && in_calendar(secs) {
            Some(FloatDateTime { secs: secs as i64, nanos: (frac_nanos % (NANOS_PER_SEC as int)) as u32 })
        } else {
            None
        }
    }

    /// The Unix epoch, 1970-01-01 00:00:00 UTC.
    pub open spec fn unix_epoch() -> FloatDateTime {
        FloatDateTime { secs: 0, nanos: 0 }
    }

    /// The Unix epoch, 1970-01-01 00:00:00 UTC.
    pub fn epoch() -> (r: FloatDateTime)
        ensures
            r == Self::unix_epoch(),
            r.wf(),
            r@ == 0,
    {
        FloatDateTime { secs: 0, nanos: 0 }
    }

    /// Decodes a stored instant from its whole seconds and its fraction of a second rounded to
    /// nanoseconds.
    pub fn from_parts(whole: i64, frac_nanos: i64) -> (r: Option<FloatDateTime>)
        ensures
            r == Self::decode_spec(whole as int, frac_nanos as int),
            r matches Some(t) ==> t.wf() && t@ == whole * NANOS_PER_SEC + frac_nanos,
    {
        if frac_nanos < 0 || frac_nanos > NANOS_PER_SEC as i64 {
            return None;
        }
        let (secs, nanos) = if frac_nanos == NANOS_PER_SEC as i64 {
            if whole == i64::MAX {
                return None;
            }
            (whole + 1, 0u32)
        } else {
            (whole, frac_nanos as u32)
        };
        if calendar_has(secs, nanos) {
            Some(FloatDateTime { secs, nanos })
        } else {
            None
        }
    }

    /// The parts the store encodes: whole seconds since the epoch and the nanoseconds past them.
    pub fn to_parts(&self) -> (r: (i64, u32))
        ensures
            r == (self.secs, self.nanos),
    {
        (self.secs, self.nanos)
    }

    /// Nanoseconds since the epoch.
    pub fn total_nanos(&self) -> (r: i128)
        ensures
            r == self@,
    {
        let s = self.secs as i128;
        proof {
            assert(-0x8000_0000_0000_0000 <= s <= 0x7fff_ffff_ffff_ffff);
            assert(-0x8000_0000_0000_0000 * 1_000_000_000 <= s * 1_000_000_000
                <= 0x7fff_ffff_ffff_ffff * 1_000_000_000) by (nonlinear_arith)
                requires
                    -0x8000_0000_0000_0000 <= s <= 0x7fff_ffff_ffff_ffff,
            ;
        }
        s * NANOS_PER_SEC as i128 + self.nanos as i128
    }

    /// Whether `self` comes strictly after `other`.
    pub fn is_after(&self, other: &FloatDateTime) -> (r: bool)
        ensures
            r == (self@ > other@),
    {
        self.total_nanos() > other.total_nanos()
    }

    /// Whether `self` comes strictly before `other`.
    pub fn is_before(&self, other: &FloatDateTime) -> (r: bool)
        ensures
            r == (self@ < other@),
    {
        other.is_after(self)
    }
}

/// Decoding the parts that `to_parts` gives of a well-formed instant yields that instant
/// again, to the nanosecond.
pub proof fn lemma_round_trip(t: FloatDateTime)
    requires
        t.wf(),
    ensures
        FloatDateTime::decode_spec(t.secs as int, t.nanos as int) == Some(t),
{
}

} // verus!
