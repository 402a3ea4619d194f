use vstd::prelude::*;
use std::time::Instant;

verus! {

#[verifier::external_type_specification]
#[verifier::external_body]
pub struct ExInstant(Instant);

/// Relies on `std::time::Instant::now`: a reading of the monotonic clock (nothing is
/// promised of its value).
#[verifier::external_body]
fn instant_now() -> Instant {
    Instant::now()
}

/// Relies on `std::time::Instant::elapsed`: the time since `start`, in whole milliseconds
/// (nothing is promised of its value).
#[verifier::external_body]
fn elapsed_millis(start: &Instant) -> u128 {
    start.elapsed().as_millis()
}

#[derive(Clone, Copy, Debug, PartialEq, Eq, Structural)]
pub enum SearchTimerStatus {
    Stopped,
    Running,
}

#[derive(Clone, Copy, Debug, PartialEq, Eq, Structural)]
pub enum SearchDuration {
    Finite(u128),
    Infinite,
}

pub const DEFAULT_MOVES_TO_GO: u64 = 30;
pub const MOVE_OVERHEAD_MS: u128 = 50;

/// The time budget of one search: `remaining / moves_to_go` (integer division) plus the
/// increment, minus a fixed overhead, floored at 0; unlimited without a remaining time.
pub open spec fn spec_allowed_duration(time_remaining: Option<u128>, increment: u128, moves_to_go: Option<u64>) -> SearchDuration {
    let mtg: int = match moves_to_go {
        Some(m) => if m == 0 { DEFAULT_MOVES_TO_GO as int } else { m as int },
        None => DEFAULT_MOVES_TO_GO as int,
    };
    match time_remaining {
        Some(t) => {
            let share = (t as int) / mtg;
            let total = share + increment;
            let total = if total > u128::MAX { u128::MAX as int } else { total };
            SearchDuration::Finite(if total > MOVE_OVERHEAD_MS { (total - MOVE_OVERHEAD_MS) as u128 } else { 0 })
        },
        None => SearchDuration::Infinite,
    }
}

/// Whether a search that has run `elapsed` milliseconds has used up its budget.
pub open spec fn time_is_up(duration: SearchDuration, elapsed: u128) -> bool {
    match duration {
        SearchDuration::Finite(d) => elapsed >= d,
        SearchDuration::Infinite => false,
    }
}

/// A timer that is running without a budget limit: no clock reading can stop it.
pub open spec fn unlimited_running(t: SearchTimer) -> bool {
    t.status == SearchTimerStatus::Running && t.allowed_duration == SearchDuration::Infinite
}

/// The clock of one search: its start, its budget and whether it has been stopped.
pub struct SearchTimer {
    pub start_time: Option<Instant>,
    pub allowed_duration: SearchDuration,
    pub status: SearchTimerStatus,
}

impl SearchTimer {
    /// A stopped timer with no budget limit.
    pub fn new() -> (r: SearchTimer)
        ensures
            r.start_time is None,
            r.allowed_duration == SearchDuration::Infinite,
            r.status == SearchTimerStatus::Stopped,
    {
        SearchTimer { start_time: None, allowed_duration: SearchDuration::Infinite, status: SearchTimerStatus::Stopped }
    }

    /// Sets the budget of the next search (see `spec_allowed_duration`; a `moves_to_go` of 0
    /// counts as unspecified).
    pub fn initialize(&mut self, time_remaining: Option<u128>, increment: u128, moves_to_go: Option<u64>)
        ensures
            final(self).allowed_duration == spec_allowed_duration(time_remaining, increment, moves_to_go),
            final(self).start_time is None,
            final(self).status == old(self).status,
    {
        let mtg: u64 = match moves_to_go {
            Some(m) => if m == 0 { DEFAULT_MOVES_TO_GO } else { m },
            None => DEFAULT_MOVES_TO_GO,
        };
        let duration = match time_remaining {
            Some(t) => {
                let m = mtg as u128;
                let share = t / m;
                let total = share.saturating_add(increment);
                SearchDuration::Finite(if total > MOVE_OVERHEAD_MS { total - MOVE_OVERHEAD_MS } else { 0 })
            },
            None => SearchDuration::Infinite,
        };
        self.start_time = None;
        self.allowed_duration = duration;
    }

    /// Marks the search as running from now.
    pub fn start(&mut self)
        ensures
            final(self).status == SearchTimerStatus::Running,
            final(self).start_time is Some,
            final(self).allowed_duration == old(self).allowed_duration,
    {
        self.status = SearchTimerStatus::Running;
        self.start_time = Some(instant_now());
    }

    /// Stops the timer when `elapsed` milliseconds have used up the budget.
    pub fn check_elapsed(&mut self, elapsed: u128)
        ensures
            final(self).allowed_duration == old(self).allowed_duration,
            final(self).start_time == old(self).start_time,
            time_is_up(old(self).allowed_duration, elapsed) ==> final(self).status == SearchTimerStatus::Stopped,
            !time_is_up(old(self).allowed_duration, elapsed) ==> final(self).status == old(self).status,
    {
        let is_time_up = match self.allowed_duration {
            SearchDuration::Finite(d) => elapsed >= d,
            SearchDuration::Infinite => false,
        };
        if is_time_up {
            self.status = SearchTimerStatus::Stopped;
        }
    }

    /// Reads the clock and stops the timer if the budget is used up. An unstarted timer
    /// counts no time.
    pub fn check(&mut self)
        ensures
            final(self).allowed_duration == old(self).allowed_duration,
            final(self).start_time == old(self).start_time,
            old(self).status == SearchTimerStatus::Stopped ==> final(self).status == SearchTimerStatus::Stopped,
            old(self).allowed_duration == SearchDuration::Infinite ==> final(self).status == old(self).status,
    {
        let elapsed = self.elapsed_ms();
        self.check_elapsed(elapsed);
    }

    pub fn is_stopped(&self) -> (r: bool)
        ensures
            r == (self.status == SearchTimerStatus::Stopped),
    {
        self.status == SearchTimerStatus::Stopped
    }

    /// Stops the timer (a `stop` request from the front end).
    pub fn stop(&mut self)
        ensures
            final(self).status == SearchTimerStatus::Stopped,
            final(self).allowed_duration == old(self).allowed_duration,
            final(self).start_time == old(self).start_time,
    {
        self.status = SearchTimerStatus::Stopped;
    }

    fn elapsed_ms(&self) -> (r: u128)
        ensures
            self.start_time is None ==> r == 0,
    {
        match &self.start_time {
            Some(t) => elapsed_millis(t),
            None => 0,
        }
    }
}

} // verus!
