//! The alert gate: at most one alert within the suppression window.
//!
//! The alert gate holds the time of the last alert that was delivered. A
//! breach is let through when there was none yet or when at least sixty
//! whole minutes have passed since; the time is only recorded once the
//! delivery is known to have succeeded.

use crate::clock::{whole_minutes, Timestamp, NANOS_PER_MINUTE};
use vstd::prelude::*;

verus! {

/// The least number of whole minutes between two alerts.
pub const SUPPRESSION_MINUTES: i64 = 60;

/// What stays from one poll to the next: when the last alert went out.
#[derive(Clone, Copy, Debug, PartialEq, Eq, Structural)]
pub struct AlertState {
    last_alert_at: Option<Timestamp>,
}

/// What the alert gate says to a breach.
#[derive(Clone, Copy, Debug, PartialEq, Eq, Structural)]
pub enum Gate {
    /// The alert may be sent; the outcome is to be reported back.
    Authorized,
    /// The last alert is less than the window ago; the breach is dropped.
    Suppressed,
}

/// Whether a breach at `now` is let through when the last alert went out
/// at `last`.
pub open spec fn ready(last: Option<Timestamp>, now: Timestamp) -> bool {
    match last {
        None => true,
        Some(t) => whole_minutes(now.total_nanos() - t.total_nanos()) >= SUPPRESSION_MINUTES,
    }
}

/// The time of the last alert after a delivery attempt at `now`: `now`
/// where the alert gate was ready and the delivery succeeded, else as
/// before.
pub open spec fn recorded(last: Option<Timestamp>, now: Timestamp, delivered: bool) -> Option<
    Timestamp,
> {
    if delivered && ready(last, now) {
        Some(now)
    } else {
        last
    }
}

impl AlertState {
    /// When the last alert went out; `None` until the first one has.
    pub closed spec fn last(self) -> Option<Timestamp> {
        self.last_alert_at
    }

    /// The state in which no alert has been sent.
    pub fn new() -> (s: AlertState)
        ensures
            s.last() is None,
    {
        AlertState { last_alert_at: None }
    }

    /// The state in which the last alert went out at `at`.
    pub fn with_last_alert(at: Timestamp) -> (s: AlertState)
        ensures
            s.last() == Some(at),
    {
        AlertState { last_alert_at: Some(at) }
    }

    /// When the last alert went out.
    pub fn last_alert_at(&self) -> (t: Option<Timestamp>)
        ensures
            t == self.last(),
    {
        self.last_alert_at
    }

    /// Answers a breach at `now`: authorized exactly when the alert gate is
    /// [`ready`]. The state does not change.
    pub fn on_breach(&self, now: Timestamp) -> (g: Gate)
        ensures
            g == if ready(self.last(), now) {
                Gate::Authorized
            } else {
                Gate::Suppressed
            },
    {
        match self.last_alert_at {
            None => Gate::Authorized,
            Some(t) => {
                if now.minutes_since(&t) >= SUPPRESSION_MINUTES {
                    Gate::Authorized
                } else {
                    Gate::Suppressed
                }
            },
        }
    }

    /// Takes in the outcome of the delivery that was tried at `now`, as
    /// [`recorded`] says: a success after an authorized breach sets the
    /// time of the last alert to `now`; a failure changes nothing.
    pub fn on_delivery(&mut self, now: Timestamp, delivered: bool)
        ensures
            final(self).last() == recorded(old(self).last(), now, delivered),
    {
        if delivered {
            match self.on_breach(now) {
                Gate::Authorized => {
                    self.last_alert_at = Some(now);
                },
                Gate::Suppressed => {},
            }
        }
    }
}

/// The alert gate lets a breach through exactly when no alert has gone out yet
/// or when the last one is at least sixty minutes of sixty seconds ago,
/// to the nanosecond: fifty-nine minutes are too few, sixty are enough.
pub proof fn lemma_ready_after_an_hour(last: Option<Timestamp>, now: Timestamp)
    ensures
        ready(last, now) <==> (last is None || now.total_nanos() - last->Some_0.total_nanos()
            >= 60 * NANOS_PER_MINUTE),
{
}

/// A failed delivery leaves the state as it was, so a breach that comes no
/// earlier than the one that was let through is let through again.
pub proof fn lemma_failure_keeps_gate_open(last: Option<Timestamp>, now: Timestamp, later: Timestamp)
    requires
        ready(last, now),
        later.total_nanos() >= now.total_nanos(),
    ensures
        recorded(last, now, false) == last,
        ready(recorded(last, now, false), later),
{
}

/// The time of the last alert changes only on a success, and then to the
/// time at which the breach was decided.
pub proof fn lemma_only_success_records(last: Option<Timestamp>, now: Timestamp, delivered: bool)
    ensures
        recorded(last, now, delivered) != last ==> delivered && recorded(last, now, delivered)
            == Some(now),
        delivered && ready(last, now) ==> recorded(last, now, delivered) == Some(now),
{
}

/// Once set, the time of the last alert never moves back, and it never
/// becomes unset.
pub proof fn lemma_last_alert_is_monotone(last: Option<Timestamp>, now: Timestamp, delivered: bool)
    ensures
        last is Some ==> recorded(last, now, delivered) is Some && recorded(
            last,
            now,
            delivered,
        )->Some_0.total_nanos() >= last->Some_0.total_nanos(),
{
}

/// After a success the alert gate is closed for the next sixty minutes and open
/// from then on.
pub proof fn lemma_success_closes_gate(last: Option<Timestamp>, now: Timestamp, later: Timestamp)
    requires
        ready(last, now),
    ensures
        ready(recorded(last, now, true), later) <==> later.total_nanos() - now.total_nanos() >= 60
            * NANOS_PER_MINUTE,
{
}

} // verus!
