//! Points in time, kept as plain seconds and nanoseconds since the Unix
//! epoch so that contracts can compare and order them directly. Rendering
//! a timestamp for the remote service is delegated to chrono.

use vstd::prelude::*;

verus! {

/// Exclusive bound on the second count a request timestamp may carry:
/// the first instant of year 10000, comfortably inside chrono's
/// representable range.
pub const MAX_TIMESTAMP_SECS: i64 = 253402300800;

/// A point in time: seconds and nanoseconds since the Unix epoch.
#[derive(Clone, Copy, Debug, PartialEq, Eq, Hash, Structural)]
pub struct Timestamp {
    pub secs: i64,
    pub nanos: u32,
}

impl Timestamp {
    /// The nanosecond part names a fraction of one second.
    pub open spec fn wf(self) -> bool {
        self.nanos < 1_000_000_000
    }

    /// Strict chronological order.
    pub open spec fn spec_lt(self, other: Timestamp) -> bool {
        self.secs < other.secs || (self.secs == other.secs && self.nanos < other.nanos)
    }

    pub fn new(secs: i64, nanos: u32) -> (t: Timestamp)
        requires
            nanos < 1_000_000_000,
        ensures
            t.secs == secs,
            t.nanos == nanos,
            t.wf(),
    {
        Timestamp { secs, nanos }
    }

    /// Whether this instant lies strictly before `other`.
    pub fn before(&self, other: &Timestamp) -> (r: bool)
        ensures
            r == self.spec_lt(*other),
    {
        self.secs < other.secs || (self.secs == other.secs && self.nanos < other.nanos)
    }
}

/// The RFC 3339 rendering chrono gives a UTC instant; a function of the
/// seconds and nanoseconds alone.
pub uninterp spec fn rfc3339_of(secs: i64, nanos: u32) -> Seq<char>;

/// Relies on chrono's `DateTime::from_timestamp` and `to_rfc3339_opts`
/// (`SecondsFormat::AutoSi`, UTC `Z` suffix), the exact rendering chrono's
/// serde support writes for a `DateTime<Utc>`.
#[verifier::external_body]
pub fn rfc3339(t: &Timestamp) -> (r: String)
    requires
        t.wf(),
        0 <= t.secs < MAX_TIMESTAMP_SECS,
    ensures
        r@ == rfc3339_of(t.secs, t.nanos),
{
    match chrono::DateTime::<chrono::Utc>::from_timestamp(t.secs, t.nanos) {
        Some(dt) => dt.to_rfc3339_opts(chrono::SecondsFormat::AutoSi, true),
        None => String::new(),
    }
}

} // verus!
