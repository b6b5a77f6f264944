use vstd::prelude::*;
use std::collections::VecDeque;

verus! {

/// A change of device presence.
#[derive(Debug, Clone, Copy, PartialEq, Eq, Structural)]
pub enum Event {
    Connected,
    Disconnected,
}

/// The integer code of an event as the caller receives it.
pub open spec fn event_code(e: Event) -> i32 {
    match e {
        Event::Connected => 0,
        Event::Disconnected => 1,
    }
}

impl Event {
    pub fn code(&self) -> (r: i32)
        ensures
            r == event_code(*self),
    {
        match self {
            Event::Connected => 0,
            Event::Disconnected => 1,
        }
    }
}

/// One sampling tick: from the presence seen last (`was`) and the presence seen now
/// (`live`), the presence to remember and the event to publish, if any.
pub open spec fn transition(was: bool, live: bool) -> (bool, Option<Event>) {
    if !was && live {
        (true, Some(Event::Connected))
    } else if was && !live {
        (false, Some(Event::Disconnected))
    } else {
        (was, None)
    }
}

/// The presence remembered after the samples `s`, starting from absent.
pub open spec fn presence_after(s: Seq<bool>) -> bool
    decreases s.len(),
{
    if s.len() == 0 {
        false
    } else {
        transition(presence_after(s.drop_last()), s.last()).0
    }
}

/// The events published while sampling `s`, starting from absent, in order.
pub open spec fn events_of(s: Seq<bool>) -> Seq<Event>
    decreases s.len(),
{
    if s.len() == 0 {
        Seq::empty()
    } else {
        let earlier = events_of(s.drop_last());
        match transition(presence_after(s.drop_last()), s.last()).1 {
            Some(e) => earlier.push(e),
            None => earlier,
        }
    }
}

/// The decision part of the connectivity watcher: it remembers the presence seen at
/// the last tick.
pub struct ConnectivityWatcher {
    was_connected: bool,
}

impl ConnectivityWatcher {
    pub closed spec fn connected(&self) -> bool {
        self.was_connected
    }

    /// A watcher that has seen no device yet.
    pub fn new() -> (r: ConnectivityWatcher)
        ensures
            !r.connected(),
    {
        ConnectivityWatcher { was_connected: false }
    }

    pub fn is_connected(&self) -> (r: bool)
        ensures
            r == self.connected(),
    {
        self.was_connected
    }

    /// Takes the presence sampled at this tick; returns the event to publish, if any.
    pub fn observe(&mut self, live: bool) -> (r: Option<Event>)
        ensures
            (final(self).connected(), r) == transition(old(self).connected(), live),
    {
        if !self.was_connected && live {
            self.was_connected = true;
            Some(Event::Connected)
        } else if self.was_connected && !live {
            self.was_connected = false;
            Some(Event::Disconnected)
        } else {
            None
        }
    }
}

/// The events that a fresh watcher publishes for the samples `samples`, in order.
pub fn watch_events(samples: &Vec<bool>) -> (r: Vec<Event>)
    ensures
        r@ == events_of(samples@),
{
    let mut w = ConnectivityWatcher::new();
    let mut r: Vec<Event> = Vec::new();
    let mut i: usize = 0;
    while i < samples.len()
        invariant
            i <= samples.len(),
            w.connected() == presence_after(samples@.take(i as int)),
            r@ == events_of(samples@.take(i as int)),
        decreases samples.len() - i,
    {
        proof {
            assert(samples@.take(i + 1).drop_last() == samples@.take(i as int));
        }
        match w.observe(samples[i]) {
            Some(e) => r.push(e),
            None => {},
        }
        i += 1;
    }
    assert(samples@.take(samples.len() as int) == samples@);
    r
}

/// Events alternate, `Connected` first: no event is ever published twice in a row,
/// and the presence remembered is whether the last event was `Connected`.
pub proof fn lemma_events_alternate(s: Seq<bool>)
    ensures
        forall|i: int|
            0 <= i < events_of(s).len() ==> #[trigger] events_of(s)[i] == (if i % 2 == 0 {
                Event::Connected
            } else {
                Event::Disconnected
            }),
        presence_after(s) == (events_of(s).len() % 2 == 1),
    decreases s.len(),
{
    if s.len() > 0 {
        lemma_events_alternate(s.drop_last());
    }
}

/// The queue of published events, oldest first.
pub struct EventQueue {
    events: VecDeque<Event>,
}

impl View for EventQueue {
    type V = Seq<Event>;

    closed spec fn view(&self) -> Seq<Event> {
        self.events@
    }
}

impl EventQueue {
    /// An empty queue.
    pub fn new() -> (r: EventQueue)
        ensures
            r@ == Seq::<Event>::empty(),
    {
        EventQueue { events: VecDeque::new() }
    }

    pub fn len(&self) -> (r: usize)
        ensures
            r == self@.len(),
    {
        self.events.len()
    }
}

/// Appends `e` after every event already queued.
pub fn push_event(queue: &mut EventQueue, e: Event)
    ensures
        final(queue)@ == old(queue)@.push(e),
{
    queue.events.push_back(e);
}

/// Takes the oldest event, if any: its code goes to `out_event` and the result is
/// `true`. On an empty queue nothing changes and the result is `false`.
pub fn poll_event(queue: &mut EventQueue, out_event: &mut i32) -> (found: bool)
    ensures
        found == (old(queue)@.len() > 0),
        found ==> final(queue)@ == old(queue)@.drop_first() && *final(out_event) == event_code(
            old(queue)@[0],
        ),
        !found ==> final(queue)@ == old(queue)@ && *final(out_event) == *old(out_event),
{
    match queue.events.pop_front() {
        Some(e) => {
            *out_event = e.code();
            true
        },
        None => false,
    }
}

} // verus!
