use raio::callbacks::ReadEventType;
use raio::event::{Filter, Flags, KEvent};
use raio::kqueue::{Call, Kqueue, Release, MAX_EVENTS, MAX_TIMERS};
use raio::EventControl;
use std::time::Duration;

type Queue = Kqueue<&'static str, &'static str, &'static str, u32>;

fn queue(num_fds: usize) -> Queue {
    Kqueue::new(7, num_fds).0
}

fn flags(add: bool, delete: bool, enable: bool, clear: bool) -> Flags {
    Flags { add, delete, enable, clear }
}

fn event(ident: usize, filter: Filter) -> KEvent {
    KEvent { ident, filter, flags: flags(false, false, false, false), trigger: false, data: 0 }
}

/// Runs a batch and lists the callbacks that ran, with what was left to do for each.
fn run(kq: &mut Queue, events: Vec<KEvent>, control: EventControl) -> Vec<(String, Release)> {
    let nev = events.len() as i32;
    let mut batch = kq.handle_events(nev, events);
    let mut ran = Vec::new();
    loop {
        assert!(kq.covers_next(&batch));
        let name = match kq.next_call(&mut batch) {
            Some(Call::Accept { fd, callback }) => format!("accept {} {}", fd, callback),
            Some(Call::Read { fd, callback }) => format!("read {} {}", fd, callback),
            Some(Call::Timer { callback }) => format!("timer {}", callback),
            None => return ran,
        };
        let release = kq.answer(&mut batch, control);
        ran.push((name, release));
    }
}

fn names(ran: Vec<(String, Release)>) -> Vec<String> {
    ran.into_iter().map(|(name, _)| name).collect()
}

#[test]
fn a_new_queue_listens_for_wake_ups() {
    let (kq, change): (Queue, KEvent) = Kqueue::new(7, 4);
    assert_eq!(kq.kqid, 7);
    assert_eq!(kq.callbacks.readevents.len(), 4);
    assert_eq!(kq.callbacks.writeevents.len(), 4);
    assert_eq!(kq.callbacks.timers.len(), 4096);
    assert_eq!(kq.next_timer, 0);
    assert_eq!(
        change,
        KEvent {
            ident: 0,
            filter: Filter::User,
            flags: flags(true, false, false, true),
            trigger: false,
            data: 0
        }
    );
}

#[test]
fn a_new_queue_runs_nothing() {
    let mut kq = queue(4);
    let events = vec![
        event(0, Filter::Read),
        event(3, Filter::Write),
        event(4095, Filter::Timer),
        event(0, Filter::User),
        event(9, Filter::Other(-9)),
    ];
    assert!(run(&mut kq, events, EventControl::KEEP).is_empty());
}

#[test]
fn registrations_ask_the_kernel_to_add() {
    let mut kq = queue(4);
    assert_eq!(
        kq.add_read_event(3, ReadEventType::READ("r")),
        KEvent { flags: flags(true, false, false, false), ..event(3, Filter::Read) }
    );
    assert_eq!(
        kq.add_write_event(2, "w"),
        KEvent { flags: flags(true, false, false, false), ..event(2, Filter::Write) }
    );
    assert_eq!(
        kq.add_timer(5, Duration::new(2, 0)),
        KEvent { flags: flags(true, false, true, false), data: 2000, ..event(0, Filter::Timer) }
    );
    assert_eq!(kq.callbacks.writeevents[2], Some("w"));
}

#[test]
fn notify_triggers_the_user_event() {
    assert_eq!(
        queue(1).notify(),
        KEvent { trigger: true, ..event(0, Filter::User) }
    );
}

#[test]
fn events_run_their_callbacks_in_order() {
    let mut kq = queue(8);
    kq.add_read_event(3, ReadEventType::READ("r"));
    kq.add_read_event(5, ReadEventType::ACCEPT("a"));
    kq.add_write_event(3, "w");
    kq.add_timer(11, Duration::new(0, 0));
    let events = vec![
        event(5, Filter::Read),
        event(3, Filter::Write),
        event(0, Filter::Timer),
        event(4, Filter::Read),
        event(3, Filter::Read),
    ];
    assert_eq!(
        names(run(&mut kq, events, EventControl::KEEP)),
        vec!["accept 5 a", "timer 11", "read 3 r"]
    );
}

#[test]
fn a_kept_callback_keeps_firing() {
    let mut kq = queue(8);
    kq.add_read_event(3, ReadEventType::READ("r"));
    kq.add_timer(11, Duration::new(2, 0));
    for _ in 0..3 {
        let events = vec![event(3, Filter::Read), event(0, Filter::Timer)];
        let ran = run(&mut kq, events, EventControl::KEEP);
        let nothing = Release { change: None, close: None };
        assert_eq!(
            ran,
            vec![("read 3 r".to_string(), nothing), ("timer 11".to_string(), nothing)]
        );
    }
}

#[test]
fn a_deleted_callback_fires_once() {
    let mut kq = queue(8);
    kq.add_read_event(3, ReadEventType::READ("r"));
    kq.add_read_event(4, ReadEventType::ACCEPT("a"));
    kq.add_timer(11, Duration::new(2, 0));
    let events = vec![event(3, Filter::Read), event(0, Filter::Timer), event(3, Filter::Read)];
    let ran = run(&mut kq, events.clone(), EventControl::DELETE);
    let gone = |ident: usize, filter: Filter| {
        Some(KEvent { flags: flags(false, true, false, false), ..event(ident, filter) })
    };
    assert_eq!(
        ran,
        vec![
            ("read 3 r".to_string(), Release { change: gone(3, Filter::Read), close: Some(3) }),
            ("timer 11".to_string(), Release { change: gone(0, Filter::Timer), close: None }),
        ]
    );
    assert!(run(&mut kq, events, EventControl::DELETE).is_empty());
    assert_eq!(
        names(run(&mut kq, vec![event(4, Filter::Read)], EventControl::KEEP)),
        vec!["accept 4 a"]
    );
}

#[test]
fn a_failed_wait_reports_nothing() {
    let mut kq = queue(8);
    kq.add_read_event(3, ReadEventType::READ("r"));
    let list = vec![event(3, Filter::Read), event(3, Filter::Read)];
    assert!(kq.handle_events(-1, list.clone()).events.is_empty());
    assert!(kq.handle_events(0, list.clone()).events.is_empty());
    assert_eq!(kq.handle_events(1, list.clone()).events.len(), 1);
    assert_eq!(kq.handle_events(2, list).events.len(), 2);
}

#[test]
fn the_later_registration_wins() {
    let mut kq = queue(8);
    kq.add_read_event(3, ReadEventType::READ("first"));
    kq.add_read_event(3, ReadEventType::ACCEPT("second"));
    assert_eq!(
        names(run(&mut kq, vec![event(3, Filter::Read)], EventControl::KEEP)),
        vec!["accept 3 second"]
    );
}

#[test]
fn timers_fill_the_free_slots() {
    let mut kq = queue(1);
    for timer in 0..4u32 {
        let change = kq.add_timer(timer, Duration::new(1, 0));
        assert_eq!(change.ident, timer as usize);
    }
    // Slot 1 is free again, but the search goes on from the last slot taken.
    run(&mut kq, vec![event(1, Filter::Timer)], EventControl::DELETE);
    assert_eq!(kq.add_timer(9, Duration::new(1, 0)).ident, 4);
    // A freed slot at the search position is taken at once.
    run(&mut kq, vec![event(4, Filter::Timer)], EventControl::DELETE);
    assert_eq!(kq.add_timer(10, Duration::new(1, 0)).ident, 4);
}

#[test]
fn the_search_for_a_timer_slot_goes_round() {
    let mut kq = queue(1);
    for timer in 0..MAX_TIMERS as u32 {
        assert!(kq.has_free_timer());
        kq.add_timer(timer, Duration::new(1, 0));
    }
    assert!(!kq.has_free_timer());
    assert_eq!(kq.try_add_timer(77, Duration::new(1, 0)), Err(77));
    run(&mut kq, vec![event(2, Filter::Timer)], EventControl::DELETE);
    assert!(kq.has_free_timer());
    let change = kq.try_add_timer(78, Duration::new(0, 5_000_000)).unwrap();
    assert_eq!((change.ident, change.data), (2, 5));
    assert_eq!(
        names(run(&mut kq, vec![event(2, Filter::Timer)], EventControl::KEEP)),
        vec!["timer 78"]
    );
}

#[test]
fn a_delay_that_cannot_be_counted_is_refused() {
    let mut kq = queue(1);
    assert_eq!(kq.try_add_timer(1, Duration::new(u64::MAX, 0)), Err(1));
    assert_eq!(kq.next_timer, 0);
    assert!(kq.callbacks.timers[0].is_none());
}

#[test]
fn coverage_follows_the_table() {
    let kq = queue(4);
    assert!(kq.covers(&event(3, Filter::Read)));
    assert!(!kq.covers(&event(4, Filter::Read)));
    assert!(kq.covers(&event(4095, Filter::Timer)));
    assert!(!kq.covers(&event(4096, Filter::Timer)));
    assert!(kq.covers(&event(9999, Filter::User)));
    assert!(!kq.covers(&event(0xffff_ffff, Filter::Read)));
}

#[test]
fn coverage_ends_at_the_next_callback() {
    let mut kq = queue(4);
    kq.add_read_event(3, ReadEventType::READ("r"));
    let list = vec![event(2, Filter::Read), event(3, Filter::Read), event(4, Filter::Read)];
    let mut batch = kq.handle_events(3, list);
    assert!(kq.covers_next(&batch));
    assert!(matches!(kq.next_call(&mut batch), Some(Call::Read { fd: 3, .. })));
    kq.answer(&mut batch, EventControl::KEEP);
    assert!(!kq.covers_next(&batch));
}

#[test]
fn a_batch_changes_only_the_slots_that_are_deleted() {
    let mut kq = queue(8);
    kq.add_read_event(1, ReadEventType::READ("a"));
    kq.add_read_event(2, ReadEventType::READ("b"));
    kq.add_write_event(1, "w");
    kq.add_timer(5, Duration::new(1, 0));
    let list = vec![event(2, Filter::Read), event(1, Filter::Read), event(1, Filter::Read)];
    let mut batch = kq.handle_events(3, list);
    assert!(matches!(kq.next_call(&mut batch), Some(Call::Read { fd: 2, .. })));
    kq.answer(&mut batch, EventControl::KEEP);
    assert!(matches!(kq.next_call(&mut batch), Some(Call::Read { fd: 1, .. })));
    kq.answer(&mut batch, EventControl::DELETE);
    assert!(kq.next_call(&mut batch).is_none());
    assert!(kq.callbacks.readevents[1].is_none());
    assert!(kq.callbacks.readevents[2].is_some());
    assert_eq!(kq.callbacks.writeevents[1], Some("w"));
    assert_eq!(kq.callbacks.timers[0], Some(5));
}

#[test]
fn a_wait_takes_up_a_full_list() {
    let mut kq = queue(4);
    assert_eq!(MAX_EVENTS, 32);
    kq.add_read_event(3, ReadEventType::READ("r"));
    let list = vec![event(3, Filter::Read); 32];
    assert_eq!(kq.handle_events(32, list.clone()).events.len(), 32);
    assert_eq!(run(&mut kq, list, EventControl::KEEP).len(), 32);
}

#[test]
fn a_batch_closes_each_deleted_descriptor_once() {
    let mut kq = queue(8);
    kq.add_read_event(2, ReadEventType::READ("b"));
    kq.add_read_event(5, ReadEventType::ACCEPT("a"));
    kq.add_timer(9, Duration::new(1, 0));
    let list = vec![
        event(5, Filter::Read),
        event(2, Filter::Write),
        event(0, Filter::Timer),
        event(5, Filter::Read),
        event(2, Filter::Read),
        event(2, Filter::Read),
    ];
    let ran = run(&mut kq, list, EventControl::DELETE);
    let closes: Vec<i32> = ran.iter().filter_map(|(_, release)| release.close).collect();
    assert_eq!(closes, vec![5, 2]);
    let idents: Vec<(usize, Filter)> = ran
        .iter()
        .filter_map(|(_, release)| release.change)
        .map(|change| (change.ident, change.filter))
        .collect();
    assert_eq!(idents, vec![(5, Filter::Read), (0, Filter::Timer), (2, Filter::Read)]);
}
