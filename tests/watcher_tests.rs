use idevice_lib::watcher::{poll_event, push_event, watch_events, ConnectivityWatcher, Event, EventQueue};

#[test]
fn repeated_presence_publishes_one_event() {
    assert_eq!(watch_events(&vec![false, true, true, false]), vec![Event::Connected, Event::Disconnected]);
}

#[test]
fn no_presence_publishes_nothing() {
    assert!(watch_events(&vec![false, false, false]).is_empty());
    assert!(watch_events(&vec![]).is_empty());
}

#[test]
fn events_alternate_over_flapping() {
    let ev = watch_events(&vec![true, false, false, true, true, false, true]);
    assert_eq!(
        ev,
        vec![Event::Connected, Event::Disconnected, Event::Connected, Event::Disconnected, Event::Connected]
    );
}

#[test]
fn watcher_remembers_presence() {
    let mut w = ConnectivityWatcher::new();
    assert!(!w.is_connected());
    assert_eq!(w.observe(true), Some(Event::Connected));
    assert!(w.is_connected());
    assert_eq!(w.observe(true), None);
    assert_eq!(w.observe(false), Some(Event::Disconnected));
    assert_eq!(w.observe(false), None);
}

#[test]
fn queue_pops_in_insertion_order() {
    let mut q = EventQueue::new();
    push_event(&mut q, Event::Connected);
    push_event(&mut q, Event::Disconnected);
    assert_eq!(q.len(), 2);
    let mut out: i32 = -1;
    assert!(poll_event(&mut q, &mut out));
    assert_eq!(out, 0);
    assert!(poll_event(&mut q, &mut out));
    assert_eq!(out, 1);
    assert_eq!(q.len(), 0);
}

#[test]
fn empty_queue_reports_nothing() {
    let mut q = EventQueue::new();
    let mut out: i32 = 7;
    assert!(!poll_event(&mut q, &mut out));
    assert_eq!(out, 7);
}

#[test]
fn event_codes() {
    assert_eq!(Event::Connected.code(), 0);
    assert_eq!(Event::Disconnected.code(), 1);
}
