//! Which connections are accepted, and when a server may shut down.

use vstd::prelude::*;

use crate::config::{Config, Nanos, DURATION_MAX, SECOND};
use std::collections::VecDeque;

verus! {

/// Something was opened or closed.
#[derive(Debug, Clone, Copy, PartialEq, Eq, Structural)]
pub enum Event {
    Open,
    Close,
}

/// Tells whether a server can work with a configuration: the request body buffer must be at least
/// as big as the request header buffer.
pub fn is_usable(config: &Config) -> (ret: bool)
    ensures
        ret == (config.request_header_buf_size <= config.request_body_buf_size),
{
    config.request_header_buf_size <= config.request_body_buf_size
}

/// Counts the open listeners and connections of a server.
#[derive(Debug, Clone, Copy)]
pub struct CounterTask {
    pub listener_events_active: bool,
    pub listener_counter: u128,
    pub connection_events_active: bool,
    pub connection_counter: u128,
    pub shutdown: bool,
}

/// A counter after an event. It stays in range.
pub open spec fn counted(counter: u128, event: Event) -> u128 {
    match event {
        Event::Open => if counter < u128::MAX {
            (counter + 1) as u128
        } else {
            counter
        },
        Event::Close => if counter > 0 {
            (counter - 1) as u128
        } else {
            0
        },
    }
}

/// A counter after some events.
pub open spec fn counted_all(counter: u128, events: Seq<Event>) -> u128
    decreases events.len(),
{
    if events.len() == 0 {
        counter
    } else {
        counted(counted_all(counter, events.drop_last()), events.last())
    }
}

/// Counts an event.
fn count(counter: u128, event: Event) -> (ret: u128)
    ensures
        ret == counted(counter, event),
{
    match event {
        Event::Open => match counter.checked_add(1) {
            Some(next) => next,
            None => u128::MAX,
        },
        Event::Close => match counter.checked_sub(1) {
            Some(next) => next,
            None => 0,
        },
    }
}

impl CounterTask {
    /// The counters after a listener was opened or closed, or after there are no more such events.
    pub open spec fn after_listener(self, event: Option<Event>) -> CounterTask {
        match event {
            Some(event) => CounterTask {
                listener_counter: counted(self.listener_counter, event),
                ..self
            },
            None => CounterTask { listener_events_active: false, ..self },
        }
    }

    /// The counters after a connection was opened or closed, or after there are no more such events.
    pub open spec fn after_connection(self, event: Option<Event>) -> CounterTask {
        match event {
            Some(event) => CounterTask {
                connection_counter: counted(self.connection_counter, event),
                ..self
            },
            None => CounterTask { connection_events_active: false, ..self },
        }
    }

    /// Whether a requested shutdown is complete.
    pub open spec fn complete(self) -> bool {
        self.shutdown && self.listener_counter == 0 && self.connection_counter == 0
    }

    /// Nothing is open yet.
    pub fn new() -> (task: Self)
        ensures
            task == (CounterTask {
                listener_events_active: true,
                listener_counter: 0,
                connection_events_active: true,
                connection_counter: 0,
                shutdown: false,
            }),
    {
        CounterTask {
            listener_events_active: true,
            listener_counter: 0,
            connection_events_active: true,
            connection_counter: 0,
            shutdown: false,
        }
    }

    /// A listener was opened or closed, or there will be no more such events.
    pub fn on_listener_event(&mut self, event: Option<Event>)
        ensures
            *final(self) == old(self).after_listener(event),
            *final(self) == match event {
                Some(event) => CounterTask {
                    listener_counter: counted(old(self).listener_counter, event),
                    ..*old(self)
                },
                None => CounterTask { listener_events_active: false, ..*old(self) },
            },
    {
        match event {
            Some(event) => {
                self.listener_counter = count(self.listener_counter, event);
            },
            None => {
                self.listener_events_active = false;
            },
        }
    }

    /// A connection was opened or closed, or there will be no more such events.
    pub fn on_connection_event(&mut self, event: Option<Event>)
        ensures
            *final(self) == old(self).after_connection(event),
            *final(self) == match event {
                Some(event) => CounterTask {
                    connection_counter: counted(old(self).connection_counter, event),
                    ..*old(self)
                },
                None => CounterTask { connection_events_active: false, ..*old(self) },
            },
    {
        match event {
            Some(event) => {
                self.connection_counter = count(self.connection_counter, event);
            },
            None => {
                self.connection_events_active = false;
            },
        }
    }

    /// A shutdown was requested.
    pub fn on_shutdown(&mut self)
        ensures
            *final(self) == (CounterTask { shutdown: true, ..*old(self) }),
    {
        self.shutdown = true;
    }

    /// Tells whether a requested shutdown is complete: nothing is open any more.
    pub fn is_complete(&self) -> (ret: bool)
        ensures
            ret == self.complete(),
            ret == (self.shutdown && self.listener_counter == 0 && self.connection_counter == 0),
    {
        self.shutdown && self.listener_counter == 0 && self.connection_counter == 0
    }
}

/// How many events are of the given kind.
pub open spec fn occurrences(events: Seq<Event>, event: Event) -> int
    decreases events.len(),
{
    if events.len() == 0 {
        0
    } else {
        occurrences(events.drop_last(), event) + if events.last() == event {
            1int
        } else {
            0
        }
    }
}

proof fn lemma_occurrences(events: Seq<Event>, event: Event)
    ensures
        0 <= occurrences(events, event),
    decreases events.len(),
{
    if events.len() > 0 {
        lemma_occurrences(events.drop_last(), event);
    }
}

/// As long as nothing is closed before it is opened, the counter is how many are open: those which
/// were opened without those which were closed.
pub proof fn law_counter_is_what_is_open(events: Seq<Event>)
    requires
        events.len() < u128::MAX,
        forall|i: int|
            0 <= i <= events.len() ==> occurrences(#[trigger] events.take(i), Event::Close)
                <= occurrences(events.take(i), Event::Open),
    ensures
        counted_all(0, events) == occurrences(events, Event::Open) - occurrences(
            events,
            Event::Close,
        ),
        occurrences(events, Event::Open) + occurrences(events, Event::Close) == events.len(),
    decreases events.len(),
{
    if events.len() > 0 {
        let front = events.drop_last();
        assert forall|i: int| 0 <= i <= front.len() implies occurrences(
            #[trigger] front.take(i),
            Event::Close,
        ) <= occurrences(front.take(i), Event::Open) by {
            assert(front.take(i) =~= events.take(i));
        }
        law_counter_is_what_is_open(front);
        lemma_occurrences(front, Event::Open);
        lemma_occurrences(front, Event::Close);
        assert(events.take(events.len() as int) =~= events);
    }
}

/// Limits how many connections a listener accepts in a second.
#[derive(Debug, Clone)]
pub struct RateLimit {
    /// The limit. There is none if it is zero.
    pub connections_per_second: u64,
    /// When the last connections were accepted. There are at most as many as the limit.
    pub times: VecDeque<Nanos>,
}

/// When the next connection may be accepted, where `times` is when the last ones were accepted: not
/// before the oldest one of as many as allowed is a second old.
pub open spec fn ready_at(limit: int, times: Seq<Nanos>) -> int {
    if limit > 0 && times.len() >= limit {
        times[0] + SECOND
    } else {
        0
    }
}

/// The times of the last connections after one more was accepted.
pub open spec fn recorded(limit: int, times: Seq<Nanos>, now: Nanos) -> Seq<Nanos> {
    if limit <= 0 {
        times
    } else if times.len() >= limit {
        times.skip(1).push(now)
    } else {
        times.push(now)
    }
}

/// The times which are kept of all connections which were accepted.
pub open spec fn kept(limit: int, times: Seq<Nanos>) -> Seq<Nanos>
    decreases times.len(),
{
    if times.len() == 0 {
        Seq::empty()
    } else {
        recorded(limit, kept(limit, times.drop_last()), times.last())
    }
}

impl RateLimit {
    /// There are not more times than needed, and they are in range.
    pub open spec fn wf(&self) -> bool {
        &&& self.times@.len() <= self.connections_per_second
        &&& forall|i: int| 0 <= i < self.times@.len() ==> #[trigger] self.times@[i] <= DURATION_MAX
    }

    /// A limit before the first connection.
    pub fn new(connections_per_second: u64) -> (limit: Self)
        ensures
            limit.wf(),
            limit.connections_per_second == connections_per_second,
            limit.times@ == Seq::<Nanos>::empty(),
    {
        RateLimit { connections_per_second, times: VecDeque::new() }
    }

    /// How long to wait before the next connection is accepted, if it may not be accepted now.
    pub fn before_accept(&self, now: Nanos) -> (wait: Option<Nanos>)
        requires
            self.wf(),
        ensures
            ({
                let ready = ready_at(self.connections_per_second as int, self.times@);
                wait == if now < ready {
                    Some((ready - now) as u128)
                } else {
                    None
                }
            }),
    {
        if self.connections_per_second == 0 || (self.times.len() as u64)
            < self.connections_per_second {
            return None;
        }
        let oldest: u128 = self.times[0];
        let ready: u128 = oldest + SECOND;
        if now < ready {
            return Some(ready - now);
        }

        None
    }

    /// Notes that a connection was accepted.
    pub fn accepted(&mut self, now: Nanos)
        requires
            old(self).wf(),
            now <= DURATION_MAX,
        ensures
            final(self).wf(),
            final(self).connections_per_second == old(self).connections_per_second,
            final(self).times@ == recorded(
                old(self).connections_per_second as int,
                old(self).times@,
                now,
            ),
    {
        if self.connections_per_second == 0 {
            return;
        }
        if (self.times.len() as u64) >= self.connections_per_second {
            let _oldest: Option<u128> = self.times.pop_front();
            proof {
                assert(self.times@ =~= old(self).times@.skip(1));
            }
        }
        self.times.push_back(now);
    }
}

/// Whether each connection was accepted when it was allowed.
pub open spec fn allowed(limit: int, times: Seq<Nanos>) -> bool {
    forall|i: int|
        0 <= i < times.len() ==> ready_at(limit, kept(limit, times.take(i))) <= #[trigger] times[i]
}

/// The last times are kept.
proof fn lemma_kept(limit: int, times: Seq<Nanos>)
    requires
        limit > 0,
    ensures
        kept(limit, times) == if times.len() > limit {
            times.skip(times.len() - limit)
        } else {
            times
        },
    decreases times.len(),
{
    if times.len() > 0 {
        lemma_kept(limit, times.drop_last());
        assert(kept(limit, times) =~= if times.len() > limit {
            times.skip(times.len() - limit)
        } else {
            times
        });
    } else {
        assert(times =~= Seq::empty());
    }
}

/// Not more connections than allowed are accepted in a second, whichever second is looked at: between
/// a connection and the one which comes as many connections behind it as allowed, there is at least a
/// second.
pub proof fn law_rate_is_limited(limit: int, times: Seq<Nanos>, i: int)
    requires
        limit > 0,
        allowed(limit, times),
        0 <= i,
        i + limit < times.len(),
    ensures
        times[i + limit] >= times[i] + SECOND,
{
    let front = times.take(i + limit);
    lemma_kept(limit, front);
    assert(kept(limit, front)[0] == times[i]);
    assert(ready_at(limit, kept(limit, front)) <= times[i + limit]);
}

/// Two connections within less than a second have fewer connections between them than allowed, so that
/// no second holds more of them than allowed.
pub proof fn law_no_second_holds_more(limit: int, times: Seq<Nanos>, i: int, j: int)
    requires
        limit > 0,
        allowed(limit, times),
        forall|a: int, b: int| 0 <= a <= b < times.len() ==> times[a] <= times[b],
        0 <= i <= j < times.len(),
        times[j] < times[i] + SECOND,
    ensures
        j - i < limit,
{
    if i + limit <= j {
        law_rate_is_limited(limit, times, i);
    }
}

/// Nobody waits without need: the next connection may be accepted exactly a second after the one
/// which comes as many connections before it as allowed, and at once if there are fewer or if there
/// is no limit.
pub proof fn law_nobody_waits_without_need(limit: int, times: Seq<Nanos>)
    ensures
        ready_at(limit, kept(limit, times)) == if limit > 0 && times.len() >= limit {
            times[times.len() - limit] + 1_000_000_000
        } else {
            0
        },
{
    if limit > 0 {
        lemma_kept(limit, times);
    }
}

/// A shutdown is not complete while a listener or a connection is open, nor before it is requested.
/// Once it is requested, it is complete as soon as the last one of them is closed. Listeners and
/// connections are counted apart from each other.
pub proof fn law_shutdown_is_complete_when_all_is_closed(task: CounterTask)
    requires
        task.listener_counter < u128::MAX,
        task.connection_counter < u128::MAX,
    ensures
        ({
            let one = task.after_connection(Some(Event::Open));
            let other = task.after_listener(Some(Event::Open));
            &&& !one.complete()
            &&& !other.complete()
            &&& one.after_connection(Some(Event::Close)) == task
            &&& other.after_listener(Some(Event::Close)) == task
            &&& one.listener_counter == task.listener_counter
            &&& other.connection_counter == task.connection_counter
            &&& !task.shutdown ==> !task.complete()
            &&& task.shutdown && task.listener_counter == 0 && task.connection_counter == 1
                ==> task.after_connection(Some(Event::Close)).complete()
            &&& task.shutdown && task.listener_counter == 1 && task.connection_counter == 0
                ==> task.after_listener(Some(Event::Close)).complete()
            &&& task.after_connection(None).connection_counter == task.connection_counter
            &&& task.after_listener(None).listener_counter == task.listener_counter
        }),
{
}

} // verus!
