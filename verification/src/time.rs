//! Points in time and half-open ranges of them.

use vstd::prelude::*;

verus! {

/// A point in time, in milliseconds relative to the unix epoch.
#[derive(Debug, Copy, Clone, PartialEq, Eq, Hash, Structural)]
pub struct Timestamp(pub i64);

impl Timestamp {
    /// The milliseconds of the earliest timestamp.
    pub const MIN: i64 = i64::MIN;

    pub fn new(millis: i64) -> (r: Self)
        ensures
            r == Timestamp(millis),
    {
        Timestamp(millis)
    }

    pub fn as_i64(&self) -> (r: i64)
        ensures
            r == self.0,
    {
        self.0
    }
}

/// The timestamps from an inclusive start up to, and without, an end.
///
/// The start never lies behind the end.
#[derive(Debug, Copy, Clone, PartialEq, Eq, Hash, Structural)]
pub struct TimeRange {
    inclusive_start: Timestamp,
    exclusive_end: Timestamp,
}

impl TimeRange {
    #[verifier::type_invariant]
    spec fn ordered(self) -> bool {
        self.inclusive_start.0 <= self.exclusive_end.0
    }

    pub closed spec fn start(self) -> Timestamp {
        self.inclusive_start
    }

    pub closed spec fn end(self) -> Timestamp {
        self.exclusive_end
    }

    /// The start is not behind the end; it holds of every range that code can hold.
    pub open spec fn wf(self) -> bool {
        self.start().0 <= self.end().0
    }

    /// Whether `t` lies in the range.
    pub open spec fn covers(self, t: Timestamp) -> bool {
        self.start().0 <= t.0 < self.end().0
    }

    /// Whether each range begins before the other one ends.
    pub open spec fn intersects(self, other: TimeRange) -> bool {
        self.start().0 < other.end().0 && other.start().0 < self.end().0
    }

    /// Whether the range ends no later than the expire time. Nothing expires
    /// where there is no expire time.
    pub open spec fn expired(self, expire_time: Option<Timestamp>) -> bool {
        expire_time matches Some(t) && self.end().0 <= t.0
    }

    /// The range from `inclusive_start` to `exclusive_end`, if they are in order.
    pub fn new(inclusive_start: Timestamp, exclusive_end: Timestamp) -> (r: Option<Self>)
        ensures
            r is Some <==> inclusive_start.0 <= exclusive_end.0,
            r matches Some(range) ==> range.start() == inclusive_start && range.end()
                == exclusive_end,
    {
        if inclusive_start.0 <= exclusive_end.0 {
            Some(TimeRange { inclusive_start, exclusive_end })
        } else {
            None
        }
    }

    pub fn inclusive_start(&self) -> (r: Timestamp)
        ensures
            r == self.start(),
            self.wf(),
    {
        proof {
            use_type_invariant(self);
        }
        self.inclusive_start
    }

    pub fn exclusive_end(&self) -> (r: Timestamp)
        ensures
            r == self.end(),
            self.wf(),
    {
        proof {
            use_type_invariant(self);
        }
        self.exclusive_end
    }

    pub fn intersect_with(&self, other: TimeRange) -> (r: bool)
        ensures
            r == self.intersects(other),
            r == (self.start().0 < other.end().0 && other.start().0 < self.end().0),
    {
        self.inclusive_start.0 < other.exclusive_end.0 && other.inclusive_start.0
            < self.exclusive_end.0
    }

    pub fn is_expired(&self, expire_time: Option<Timestamp>) -> (r: bool)
        ensures
            r == self.expired(expire_time),
            r == (expire_time matches Some(t) && self.end().0 <= t.0),
    {
        match expire_time {
            Some(t) => self.exclusive_end.0 <= t.0,
            None => false,
        }
    }
}

/// Ranges meet exactly if each starts before the other one ends, also where one
/// of them holds no timestamp.
pub proof fn ranges_meet_where_each_starts_before_the_other_ends(a: TimeRange, b: TimeRange)
    ensures
        a.intersects(b) <==> !(a.end().0 <= b.start().0 || b.end().0 <= a.start().0),
{
}

/// A range expires when its end is reached, and never without an expire time.
pub proof fn range_expires_when_its_end_is_reached(range: TimeRange, expire_time: Timestamp)
    ensures
        !range.expired(None),
        range.expired(Some(range.end())),
        range.expired(Some(expire_time)) <==> !(expire_time.0 < range.end().0),
{
}

/// Intersecting is symmetric.
pub proof fn intersection_is_symmetric(a: TimeRange, b: TimeRange)
    ensures
        a.intersects(b) == b.intersects(a),
{
}

/// Two ranges that hold at least one timestamp each intersect exactly if one
/// timestamp lies in both.
pub proof fn intersection_is_a_common_timestamp(a: TimeRange, b: TimeRange)
    requires
        a.start().0 < a.end().0,
        b.start().0 < b.end().0,
    ensures
        a.intersects(b) <==> exists|t: Timestamp| a.covers(t) && b.covers(t),
{
    if a.intersects(b) {
        let t = if a.start().0 <= b.start().0 {
            b.start()
        } else {
            a.start()
        };
        assert(a.covers(t) && b.covers(t));
    }
}

/// A range that has expired holds no timestamp at or after the expire time,
/// and one that holds timestamps has expired exactly if all of them lie before
/// the expire time.
pub proof fn expired_range_lies_before_expire_time(range: TimeRange, expire_time: Timestamp)
    ensures
        range.expired(Some(expire_time)) ==> forall|t: Timestamp|
            #[trigger] range.covers(t) ==> t.0 < expire_time.0,
        range.start().0 < range.end().0 && (forall|t: Timestamp|
            #[trigger] range.covers(t) ==> t.0 < expire_time.0) ==> range.expired(
            Some(expire_time),
        ),
{
    if range.start().0 < range.end().0 && !range.expired(Some(expire_time)) {
        let last = Timestamp((range.end().0 - 1) as i64);
        assert(range.covers(last));
    }
}

/// What has expired stays expired when the expire time moves on.
pub proof fn expiry_is_monotone(range: TimeRange, earlier: Timestamp, later: Timestamp)
    requires
        earlier.0 <= later.0,
        range.expired(Some(earlier)),
    ensures
        range.expired(Some(later)),
{
}

} // verus!
