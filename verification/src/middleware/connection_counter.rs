//! How many requests are answered at the same time.
use vstd::prelude::*;

verus! {

/// Counts the requests that are being answered.
#[derive(Debug)]
pub struct ConnectionCounter {
    counter: u64,
}

/// So many requests are no cause for alarm: four fifths of what this client can take, rounded up.
pub open spec fn alarm_above(max_connection: nat) -> nat {
    (4 * max_connection + 4) / 5
}

impl ConnectionCounter {
    /// The requests that are being answered.
    pub closed spec fn count(&self) -> u64 {
        self.counter
    }

    /// Nobody has asked yet.
    pub fn new() -> (r: ConnectionCounter)
        ensures
            r.count() == 0,
    {
        ConnectionCounter { counter: 0 }
    }

    /// A request came: whether the server must be told that there are too many.
    pub fn enter(&mut self, max_connection: u64) -> (r: bool)
        requires
            old(self).count() < u64::MAX,
        ensures
            final(self).count() == old(self).count() + 1,
            r == (old(self).count() > alarm_above(max_connection as nat)),
    {
        let before: u64 = self.counter;
        self.counter = before + 1;
        let alarm: u128 = (4 * max_connection as u128 + 4) / 5;
        before as u128 > alarm
    }

    /// A request was answered, or was given up.
    pub fn leave(&mut self)
        requires
            old(self).count() > 0,
        ensures
            final(self).count() == old(self).count() - 1,
    {
        self.counter = self.counter - 1;
    }
}

/// A client that answers no more than four fifths of what it can take raises no alarm.
pub proof fn no_alarm_below_limit(count: nat, max_connection: nat)
    requires
        5 * count <= 4 * max_connection,
    ensures
        count <= alarm_above(max_connection),
{
}

/// The alarm is raised above four fifths of what this client can take, rounded up: not for one request fewer,
/// and not at that number itself. Requests that have left no longer count.
pub proof fn alarm_is_four_fifths(c: &mut ConnectionCounter, d: &mut ConnectionCounter, max: u64, r: bool)
    requires
        call_ensures(ConnectionCounter::enter, (c, max), r),
        *old(d) == *final(c),
        call_ensures(ConnectionCounter::leave, (d,), ()),
        old(c).count() < u64::MAX,
    ensures
        r ==> 5 * old(c).count() > 4 * max,
        5 * (old(c).count() - 1) >= 4 * max ==> r,
        5 * old(c).count() <= 4 * max ==> !r,
        final(c).count() == old(c).count() + 1,
        final(d).count() == old(c).count(),
        5 * alarm_above(max as nat) >= 4 * max,
        max > 0 ==> 5 * (alarm_above(max as nat) - 1) < 4 * max,
{
}

/// The first request raises no alarm, however few this client can take, and is counted as one.
pub proof fn first_request_is_no_alarm(start: ConnectionCounter, c: &mut ConnectionCounter, max: u64, r: bool)
    requires
        call_ensures(ConnectionCounter::new, (), start),
        *old(c) == start,
        call_ensures(ConnectionCounter::enter, (c, max), r),
    ensures
        !r && final(c).count() == 1,
{
}

} // verus!
