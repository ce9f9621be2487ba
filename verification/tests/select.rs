use raio::callbacks::{Callbacks, ReadEventType};
use raio::fd_set::{FdSet, FD_SETSIZE};
use raio::select::{Ready, Round, Select};
use raio::EventControl;
use std::time::Duration;

type Table = Callbacks<&'static str, &'static str, &'static str, u32>;

/// A loop with its table.
struct Loop {
    select: Select,
    callbacks: Table,
}

impl Loop {
    fn new(num_fds: usize, pipe_fds: [i32; 2]) -> Loop {
        let (select, callbacks) = Select::new(num_fds, pipe_fds);
        Loop { select, callbacks }
    }

    fn add_read_event(&mut self, fd: usize, callback: ReadEventType<&'static str, &'static str>) {
        self.select.add_read_event(&mut self.callbacks, fd, callback);
    }

    fn add_write_event(&mut self, fd: usize, callback: &'static str) {
        self.select.add_write_event(&mut self.callbacks, fd, callback);
    }

    fn covers(&self, fd: usize) -> bool {
        self.select.covers(&self.callbacks, fd)
    }
}

fn set(fds: &[usize]) -> FdSet {
    let mut set = FdSet::new();
    for fd in fds {
        set.insert(*fd);
    }
    set
}

fn members(set: &FdSet) -> Vec<usize> {
    (0..FD_SETSIZE).filter(|fd| set.contains(*fd)).collect()
}

/// Walks over what is ready and lists what ran, with the descriptors that were to be closed.
fn walk(
    table: &mut Loop,
    nev: i32,
    read: &[usize],
    write: &[usize],
    control: EventControl,
) -> (Vec<String>, Vec<i32>) {
    let Loop { select, callbacks } = table;
    let mut round = select.handle_events(nev, set(read), set(write));
    let mut ran = Vec::new();
    let mut closed = Vec::new();
    loop {
        assert!(select.covers_next(callbacks, &round));
        match select.next_ready(callbacks, &mut round) {
            Some(Ready::Drain { fd, most }) => {
                assert_eq!(most, 10);
                ran.push(format!("drain {}", fd));
                select.drained(&mut round);
                continue;
            }
            Some(Ready::Accept { fd, callback }) => ran.push(format!("accept {} {}", fd, callback)),
            Some(Ready::Read { fd, callback }) => ran.push(format!("read {} {}", fd, callback)),
            Some(Ready::Write { fd, callback }) => ran.push(format!("write {} {}", fd, callback)),
            None => return (ran, closed),
        }
        if let Some(fd) = select.answer(callbacks, &mut round, control) {
            closed.push(fd);
        }
    }
}

#[test]
fn descriptor_sets_insert_and_remove() {
    let mut fds = set(&[0, 5, 1023]);
    assert_eq!(members(&fds), vec![0, 5, 1023]);
    fds.remove(5);
    fds.remove(6);
    assert_eq!(members(&fds), vec![0, 1023]);
    assert!(!fds.contains(1024));
}

#[test]
fn a_new_loop_waits_for_the_pipe() {
    let table = Loop::new(16, [3, 4]);
    assert_eq!(members(&table.select.read_fds), vec![3]);
    assert!(members(&table.select.write_fds).is_empty());
    assert_eq!(table.callbacks.readevents.len(), 16);
    assert_eq!(table.callbacks.writeevents.len(), 16);
    assert_eq!(table.callbacks.timers.len(), 16);
    assert_eq!(table.select.notify(), (4, 0));
}

#[test]
fn ready_descriptors_run_in_ascending_order() {
    let mut table = Loop::new(16, [3, 4]);
    table.add_read_event(9, ReadEventType::READ("r"));
    table.add_read_event(5, ReadEventType::ACCEPT("a"));
    table.add_write_event(7, "w");
    assert_eq!(members(&table.select.read_fds), vec![3, 5, 9]);
    assert_eq!(members(&table.select.write_fds), vec![7]);
    let (ran, closed) = walk(&mut table, 4, &[3, 5, 9], &[7], EventControl::KEEP);
    assert_eq!(ran, vec!["drain 3", "accept 5 a", "write 7 w", "read 9 r"]);
    assert!(closed.is_empty());
}

#[test]
fn reading_goes_before_writing() {
    let mut table = Loop::new(16, [3, 4]);
    table.add_read_event(9, ReadEventType::READ("r"));
    table.add_write_event(9, "w");
    let (ran, _) = walk(&mut table, 2, &[9], &[9], EventControl::KEEP);
    assert_eq!(ran, vec!["read 9 r"]);
    let (ran, _) = walk(&mut table, 1, &[], &[9], EventControl::KEEP);
    assert_eq!(ran, vec!["write 9 w"]);
}

#[test]
fn deletion_ends_the_wait_and_closes() {
    let mut table = Loop::new(16, [3, 4]);
    table.add_read_event(9, ReadEventType::READ("r"));
    table.add_write_event(7, "w");
    let (ran, closed) = walk(&mut table, 2, &[3, 9], &[7], EventControl::DELETE);
    assert_eq!(ran, vec!["drain 3", "write 7 w", "read 9 r"]);
    assert_eq!(closed, vec![7, 9]);
    assert_eq!(members(&table.select.read_fds), vec![3]);
    assert!(members(&table.select.write_fds).is_empty());
    assert!(table.callbacks.readevents[9].is_none());
    assert!(table.callbacks.writeevents[7].is_none());
}

#[test]
fn kept_callbacks_run_again_when_reported() {
    let mut table = Loop::new(16, [3, 4]);
    table.add_read_event(9, ReadEventType::READ("r"));
    for _ in 0..3 {
        let (ran, _) = walk(&mut table, 1, &[9], &[], EventControl::KEEP);
        assert_eq!(ran, vec!["read 9 r"]);
        assert_eq!(members(&table.select.read_fds), vec![9]);
    }
}

#[test]
fn the_wait_goes_on_with_the_reported_sets() {
    let mut table = Loop::new(16, [3, 4]);
    table.add_read_event(9, ReadEventType::READ("r"));
    walk(&mut table, 1, &[3], &[], EventControl::KEEP);
    assert_eq!(members(&table.select.read_fds), vec![3]);
    assert!(table.callbacks.readevents[9].is_some());
}

#[test]
fn a_failed_or_empty_wait_runs_nothing() {
    let mut table = Loop::new(16, [3, 4]);
    table.add_read_event(9, ReadEventType::READ("r"));
    assert!(walk(&mut table, -1, &[3, 9], &[], EventControl::DELETE).0.is_empty());
    assert!(walk(&mut table, 0, &[3, 9], &[], EventControl::DELETE).0.is_empty());
    assert!(table.callbacks.readevents[9].is_some());
}

#[test]
fn a_reported_descriptor_without_callback_is_passed_over() {
    let mut table = Loop::new(16, [3, 4]);
    let (ran, _) = walk(&mut table, 2, &[8], &[10], EventControl::DELETE);
    assert!(ran.is_empty());
    assert_eq!(members(&table.select.read_fds), vec![8]);
}

#[test]
fn timers_are_dropped() {
    let mut table = Loop::new(4, [3, 4]);
    table.select.add_timer(&mut table.callbacks, 1, Duration::new(1, 0));
    assert!(table.callbacks.timers.iter().all(|timer| timer.is_none()));
    assert_eq!(table.select.next_timer, 0);
}

#[test]
fn coverage_of_reported_descriptors() {
    let mut table = Loop::new(8, [9, 10]);
    assert!(table.covers(9));
    assert!(table.covers(1000));
    table.select.handle_events(1, set(&[7, 8, 9]), set(&[7, 11]));
    assert!(table.covers(7));
    assert!(!table.covers(8));
    assert!(table.covers(9));
    assert!(!table.covers(11));
}

#[test]
fn coverage_ends_at_the_next_ready_descriptor() {
    let mut table = Loop::new(8, [9, 10]);
    table.add_read_event(3, ReadEventType::READ("r"));
    // Descriptor 8 has no slot, but descriptor 3 comes first.
    let round = table.select.handle_events(2, set(&[3, 8]), set(&[]));
    assert!(table.select.covers_next(&table.callbacks, &round));
    assert!(!table.select.covers_next(&table.callbacks, &Round { next: 4 }));
    assert!(table.select.covers_next(&table.callbacks, &Round { next: 9 }));
    assert!(table.select.covers_next(&table.callbacks, &Round { next: 1024 }));
}

#[test]
fn a_clone_has_sets_of_its_own_and_the_same_table() {
    let mut table = Loop::new(16, [3, 4]);
    let mut copy = table.select.clone();
    assert_eq!(members(&copy.read_fds), vec![3]);
    assert_eq!(copy.notify(), (4, 0));
    assert_eq!(copy.next_timer, 0);
    table.add_read_event(9, ReadEventType::READ("r"));
    table.add_write_event(7, "w");
    assert_eq!(members(&table.select.read_fds), vec![3, 9]);
    assert_eq!(members(&copy.read_fds), vec![3]);
    assert!(members(&copy.write_fds).is_empty());
    let mut round = copy.handle_events(1, set(&[9]), set(&[]));
    assert!(matches!(
        copy.next_ready(&table.callbacks, &mut round),
        Some(Ready::Read { fd: 9, callback: &"r" })
    ));
}
