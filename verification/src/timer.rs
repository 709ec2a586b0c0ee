//! The hypervisor's timers: a queue of deadlines, each with the token that
//! names its timer, kept in a `timer_list::TimerList`.
use vstd::multiset::Multiset;
use vstd::prelude::*;

use timer_list::{TimeValue, TimerEvent, TimerList};

verus! {

/// A timer as the queue holds it: the token that names it.
#[derive(Debug, Clone, Copy, PartialEq, Eq, Structural)]
pub struct TimerToken {
    pub token: usize,
}

impl TimerEvent for TimerToken {
    /// The queue holds tokens only; what a timer runs is looked up by its
    /// token once the queue hands the token out.
    fn callback(self, _now: TimeValue) {
    }
}

/// A `timer_list::TimerList` of timer tokens.
#[verifier::external_body]
pub struct TimerQueue {
    list: TimerList<TimerToken>,
}

/// The timers a queue holds, as (deadline in nanoseconds, token).
pub uninterp spec fn timer_events(l: TimerQueue) -> Multiset<(u64, usize)>;

/// Whether the queued timer `e` is the one named `token`.
pub fn token_matches(e: &TimerToken, token: usize) -> (r: bool)
    ensures
        r == (e.token == token),
{
    e.token == token
}

/// An empty queue: `TimerList::new`, an empty binary heap.
#[verifier::external_body]
fn timer_list_new() -> (r: TimerQueue)
    ensures
        timer_events(r) == Multiset::<(u64, usize)>::empty(),
{
    TimerQueue { list: TimerList::new() }
}

/// Queues the timer `token` at `deadline` nanoseconds with
/// `TimerList::set`, which pushes it onto the heap with the deadline
/// `TimeValue::from_nanos(deadline)`.
#[verifier::external_body]
fn timer_list_set(l: &mut TimerQueue, deadline: u64, token: usize)
    ensures
        timer_events(*final(l)) == timer_events(*old(l)).insert((deadline, token)),
{
    l.list.set(TimeValue::from_nanos(deadline), TimerToken { token })
}

/// Drops every queued timer named `token` with `TimerList::cancel`, which
/// keeps, with `BinaryHeap::retain`, the timers the condition refuses.
#[verifier::external_body]
fn timer_list_cancel(l: &mut TimerQueue, token: usize)
    ensures
        forall|e: (u64, usize)| #[trigger] timer_events(*final(l)).count(e) == if e.1 == token {
            0
        } else {
            timer_events(*old(l)).count(e)
        },
{
    l.list.cancel(|e: &TimerToken| token_matches(e, token))
}

/// Takes a timer due at `now` nanoseconds with `TimerList::expire_one`:
/// it peeks at the top of the heap, whose order puts the earliest
/// deadline on top (which of several equal ones is left open), and pops
/// it when its deadline is at most `now`; otherwise nothing is taken.
/// The deadline was set from nanoseconds held in a `u64`, so it reads
/// back the same.
#[verifier::external_body]
fn timer_list_expire_one(l: &mut TimerQueue, now: u64) -> (r: Option<(u64, usize)>)
    ensures
        match r {
            Some(e) => {
                &&& timer_events(*old(l)).contains(e)
                &&& e.0 <= now
                &&& forall|f: (u64, usize)| #[trigger] timer_events(*old(l)).contains(f) ==> e.0 <= f.0
                &&& timer_events(*final(l)) == timer_events(*old(l)).remove(e)
            },
            None => {
                &&& forall|f: (u64, usize)| #[trigger] timer_events(*old(l)).contains(f) ==> f.0 > now
                &&& timer_events(*final(l)) == timer_events(*old(l))
            },
        },
{
    l.list.expire_one(TimeValue::from_nanos(now)).map(|(d, e)| (d.as_nanos() as u64, e.token))
}

/// The timers of a CPU: the queue and the token the next timer gets.
pub struct VmmTimers {
    list: TimerQueue,
    next_token: usize,
}

impl VmmTimers {
    /// The timers queued, as (deadline in nanoseconds, token).
    pub closed spec fn events(&self) -> Multiset<(u64, usize)> {
        timer_events(self.list)
    }

    /// The token the next timer gets.
    pub closed spec fn next_token_spec(&self) -> usize {
        self.next_token
    }

    /// No timer; the first timer gets token 0.
    pub fn new() -> (r: Self)
        ensures
            r.events() == Multiset::<(u64, usize)>::empty(),
            r.next_token_spec() == 0,
    {
        VmmTimers { list: timer_list_new(), next_token: 0 }
    }

    /// Queues a timer due at `deadline` nanoseconds and returns its token;
    /// tokens count up from 0 and wrap around.
    pub fn register_timer(&mut self, deadline: u64) -> (token: usize)
        ensures
            token == old(self).next_token_spec(),
            final(self).next_token_spec() == old(self).next_token_spec().wrapping_add(1),
            final(self).events() == old(self).events().insert((deadline, token)),
    {
        let token = self.next_token;
        self.next_token = self.next_token.wrapping_add(1);
        timer_list_set(&mut self.list, deadline, token);
        token
    }

    /// Drops the timers named `token`.
    pub fn cancel_timer(&mut self, token: usize)
        ensures
            final(self).next_token_spec() == old(self).next_token_spec(),
            forall|e: (u64, usize)| #[trigger] final(self).events().count(e) == if e.1 == token {
                0
            } else {
                old(self).events().count(e)
            },
    {
        timer_list_cancel(&mut self.list, token);
    }

    /// Takes the timer with the earliest deadline when it is due at `now`
    /// nanoseconds, for the caller to run; `None` when no timer is due.
    pub fn expire_one(&mut self, now: u64) -> (r: Option<(u64, usize)>)
        ensures
            final(self).next_token_spec() == old(self).next_token_spec(),
            match r {
                Some(e) => {
                    &&& old(self).events().contains(e)
                    &&& e.0 <= now
                    &&& forall|f: (u64, usize)| #[trigger] old(self).events().contains(f) ==> e.0 <= f.0
                    &&& final(self).events() == old(self).events().remove(e)
                },
                None => {
                    &&& forall|f: (u64, usize)| #[trigger] old(self).events().contains(f) ==> f.0 > now
                    &&& final(self).events() == old(self).events()
                },
            },
    {
        timer_list_expire_one(&mut self.list, now)
    }
}

} // verus!
