//! Instants and spans of time as plain integers.
//!
//! A [`Timestamp`] is a point on the UTC time line, counted in seconds from
//! the Unix epoch plus a sub-second part in nanoseconds. Instants are ordered
//! lexicographically by `(secs, nanos)`, which is the order of the time line.
use vstd::arithmetic::div_mod::lemma_fundamental_div_mod_converse;
use vstd::prelude::*;

verus! {

/// Number of nanoseconds in one second.
pub const NANOS_PER_SEC: u32 = 1_000_000_000;

/// An instant: seconds since the Unix epoch (negative before it) and the
/// nanoseconds that follow within that second.
#[derive(Clone, Copy, Debug, PartialEq, Eq, Structural, Hash, PartialOrd, Ord)]
pub struct Timestamp {
    pub secs: i64,
    pub nanos: u32,
}

/// A non-negative length of time: whole seconds plus nanoseconds.
#[derive(Clone, Copy, Debug, PartialEq, Eq, Structural, Hash, PartialOrd, Ord)]
pub struct TimeSpan {
    pub secs: u64,
    pub nanos: u32,
}

impl Timestamp {
    /// The sub-second part is below one second.
    pub open spec fn wf(self) -> bool {
        self.nanos < NANOS_PER_SEC
    }

    /// `self` is at or before `other` on the time line.
    pub open spec fn spec_le(self, other: Timestamp) -> bool {
        self.secs < other.secs || (self.secs == other.secs && self.nanos <= other.nanos)
    }

    /// `self` is strictly before `other` on the time line.
    pub open spec fn spec_lt(self, other: Timestamp) -> bool {
        !other.spec_le(self)
    }

    /// Nanoseconds since the Unix epoch.
    pub open spec fn total_nanos(self) -> int {
        self.secs * NANOS_PER_SEC + self.nanos
    }

    /// The instant `span` earlier than `self`, when its seconds still fit in
    /// an `i64`.
    pub open spec fn spec_checked_sub(self, span: TimeSpan) -> Option<Timestamp> {
        let total = self.total_nanos() - span.total_nanos();
        let secs = total / (NANOS_PER_SEC as int);
        if secs >= i64::MIN {
            Some(Timestamp { secs: secs as i64, nanos: (total % (NANOS_PER_SEC as int)) as u32 })
        } else {
            None
        }
    }

    /// Relies on chrono's `From<SystemTime>` for `DateTime<Utc>`, applied to
    /// std's `SystemTime::now`: the current UTC instant, with a clock before
    /// the Unix epoch mapped to negative seconds and the sub-second part
    /// always below one second.
    #[verifier::external_body]
    pub(crate) fn now() -> (r: Timestamp)
        ensures
            r.wf(),
    {
        let t = chrono::DateTime::<chrono::Utc>::from(std::time::SystemTime::now());
        Timestamp { secs: t.timestamp(), nanos: t.timestamp_subsec_nanos() }
    }

    /// The instant `span` earlier than `self`, or `None` when its seconds
    /// fall below the range of an `i64`.
    pub fn checked_sub(&self, span: &TimeSpan) -> (r: Option<Timestamp>)
        requires
            self.wf(),
            span.wf(),
        ensures
            r == self.spec_checked_sub(*span),
            r matches Some(t) ==> t.wf(),
    {
        let mut secs: i128 = self.secs as i128 - span.secs as i128;
        let nanos: u32;
        if self.nanos >= span.nanos {
            nanos = self.nanos - span.nanos;
        } else {
            secs = secs - 1;
            nanos = (self.nanos + (NANOS_PER_SEC - span.nanos)) as u32;
        }
        proof {
            let total = self.total_nanos() - span.total_nanos();
            assert(total == secs * (NANOS_PER_SEC as int) + nanos) by (nonlinear_arith)
                requires
                    total == self.total_nanos() - span.total_nanos(),
                    self.total_nanos() == self.secs * NANOS_PER_SEC + self.nanos,
                    span.total_nanos() == span.secs * NANOS_PER_SEC + span.nanos,
                    self.nanos >= span.nanos ==> secs == self.secs - span.secs && nanos == self.nanos - span.nanos,
                    self.nanos < span.nanos ==> secs == self.secs - span.secs - 1 && nanos == self.nanos + NANOS_PER_SEC - span.nanos,
            ;
            lemma_fundamental_div_mod_converse(total, NANOS_PER_SEC as int, secs as int, nanos as int);
        }
        if secs >= i64::MIN as i128 {
            Some(Timestamp { secs: secs as i64, nanos })
        } else {
            None
        }
    }

    /// The Unix epoch itself.
    pub fn epoch() -> (r: Timestamp)
        ensures
            r.secs == 0 && r.nanos == 0,
    {
        Timestamp { secs: 0, nanos: 0 }
    }

    /// Whether `self` is at or before `other`.
    pub fn le(&self, other: &Timestamp) -> (r: bool)
        ensures
            r == self.spec_le(*other),
    {
        self.secs < other.secs || (self.secs == other.secs && self.nanos <= other.nanos)
    }

    /// Whether `self` is strictly before `other`.
    pub fn lt(&self, other: &Timestamp) -> (r: bool)
        ensures
            r == self.spec_lt(*other),
    {
        !other.le(self)
    }
}

impl TimeSpan {
    /// The sub-second part is below one second.
    pub open spec fn wf(self) -> bool {
        self.nanos < NANOS_PER_SEC
    }

    /// Length of the span in nanoseconds.
    pub open spec fn total_nanos(self) -> int {
        self.secs * NANOS_PER_SEC + self.nanos
    }
}

} // verus!
