//! Instants, each with the offset from UTC at which it is shown.

use crate::outside::{format_time, formatted_time, rfc3339, rfc3339_text};
use vstd::prelude::*;

verus! {

/// The seconds since the epoch of the years in which the calendar is defined,
/// from the first second of the first to the last second of the last.
pub open spec fn seconds_in_range(secs: i64) -> bool {
    -8_334_601_228_800 <= secs <= 8_210_266_876_799
}

/// The offsets from UTC of less than a day.
pub open spec fn offset_in_range(offset: i32) -> bool {
    -86_400 < offset < 86_400
}

/// The format of the name of a run: its start, to the minute.
pub open spec fn run_name_format() -> Seq<char> {
    "%Y-%m-%d %H:%M"@
}

/// An instant: seconds since the epoch and nanoseconds, and the seconds east
/// of Greenwich at which it is shown.
#[derive(Clone, Copy, Debug)]
pub struct Timestamp {
    secs: i64,
    nanos: u32,
    offset: i32,
}

impl Timestamp {
    #[verifier::type_invariant]
    spec fn wf(self) -> bool {
        seconds_in_range(self.secs) && self.nanos < 1_000_000_000 && offset_in_range(self.offset)
    }

    pub closed spec fn spec_secs(self) -> i64 {
        self.secs
    }

    pub closed spec fn spec_nanos(self) -> u32 {
        self.nanos
    }

    pub closed spec fn spec_offset(self) -> i32 {
        self.offset
    }

    /// The nanoseconds since the epoch, by which instants are ordered.
    pub open spec fn instant(self) -> int {
        self.spec_secs() * 1_000_000_000 + self.spec_nanos()
    }

    /// The name of a run that started at this instant.
    pub open spec fn run_name_text(self) -> Seq<char> {
        formatted_time(self.spec_secs(), self.spec_nanos(), self.spec_offset(), run_name_format())
    }

    /// The instant by RFC 3339.
    pub open spec fn rfc3339_text(self) -> Seq<char> {
        rfc3339_text(self.spec_secs(), self.spec_nanos(), self.spec_offset())
    }

    /// An instant, if the calendar is defined for it.
    pub fn new(secs: i64, nanos: u32, offset: i32) -> (t: Option<Timestamp>)
        ensures
            t is Some <==> seconds_in_range(secs) && nanos < 1_000_000_000 && offset_in_range(
                offset,
            ),
            t matches Some(t) ==> t.spec_secs() == secs && t.spec_nanos() == nanos
                && t.spec_offset() == offset,
    {
        if -8_334_601_228_800 <= secs && secs <= 8_210_266_876_799 && nanos < 1_000_000_000
            && -86_400 < offset && offset < 86_400 {
            Some(Timestamp { secs, nanos, offset })
        } else {
            None
        }
    }

    /// The seconds since the epoch.
    pub fn secs(&self) -> (s: i64)
        ensures
            s == self.spec_secs(),
            seconds_in_range(s),
    {
        proof {
            use_type_invariant(self);
        }
        self.secs
    }

    /// The nanoseconds within the second.
    pub fn nanos(&self) -> (n: u32)
        ensures
            n == self.spec_nanos(),
            n < 1_000_000_000,
    {
        proof {
            use_type_invariant(self);
        }
        self.nanos
    }

    /// The seconds east of Greenwich.
    pub fn offset(&self) -> (o: i32)
        ensures
            o == self.spec_offset(),
            offset_in_range(o),
    {
        proof {
            use_type_invariant(self);
        }
        self.offset
    }

    /// Whether this instant comes before another one.
    pub fn before(&self, other: &Timestamp) -> (b: bool)
        ensures
            b <==> self.instant() < other.instant(),
    {
        proof {
            use_type_invariant(self);
            use_type_invariant(other);
        }
        self.secs < other.secs || (self.secs == other.secs && self.nanos < other.nanos)
    }

    /// The instant some seconds later, if the calendar is defined for it.
    pub fn later(&self, secs: u32) -> (t: Option<Timestamp>)
        ensures
            t is Some <==> self.spec_secs() + secs <= 8_210_266_876_799,
            t matches Some(t) ==> t.spec_secs() == self.spec_secs() + secs && t.spec_nanos()
                == self.spec_nanos() && t.spec_offset() == self.spec_offset(),
    {
        proof {
            use_type_invariant(self);
        }
        Timestamp::new(self.secs + secs as i64, self.nanos, self.offset)
    }

    /// How long it is from this instant to another one, in seconds and
    /// nanoseconds.
    pub fn until(&self, other: &Timestamp) -> (d: (u64, u32))
        requires
            self.instant() <= other.instant(),
        ensures
            d.0 * 1_000_000_000 + d.1 == other.instant() - self.instant(),
            d.1 < 1_000_000_000,
    {
        proof {
            use_type_invariant(self);
            use_type_invariant(other);
        }
        if self.nanos <= other.nanos {
            ((other.secs - self.secs) as u64, other.nanos - self.nanos)
        } else {
            (((other.secs - self.secs) - 1) as u64, other.nanos + (1_000_000_000 - self.nanos))
        }
    }

    /// The name of a run that starts at this instant.
    pub fn run_name(&self) -> (s: String)
        ensures
            s@ == self.run_name_text(),
    {
        proof {
            use_type_invariant(self);
        }
        format_time(self.secs, self.nanos, self.offset, "%Y-%m-%d %H:%M")
    }

    /// The instant by RFC 3339.
    pub fn to_rfc3339(&self) -> (s: String)
        ensures
            s@ == self.rfc3339_text(),
    {
        proof {
            use_type_invariant(self);
        }
        rfc3339(self.secs, self.nanos, self.offset)
    }
}

} // verus!
