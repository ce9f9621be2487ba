use raio::executor::on_writable;
use raio::write_queue::{WriteQueues, Written};
use raio::{EventControl, Future};

fn bytes(text: &str) -> Vec<u8> {
    text.as_bytes().to_vec()
}

fn front<F>(queues: &WriteQueues<F>, fd: i32) -> Option<Vec<u8>> {
    queues.front(fd).map(|data| data.clone())
}

#[test]
fn nothing_to_write_ends_the_write_event() {
    let mut queues = WriteQueues::new();
    assert_eq!(front(&queues, 3), None);
    assert_eq!(on_writable(&mut queues, 3, Some(4)), EventControl::DELETE);
    assert_eq!(on_writable(&mut queues, 3, None), EventControl::DELETE);
}

#[test]
fn a_full_write_takes_the_payload_and_sets_the_future() {
    let mut queues = WriteQueues::new();
    let future = Future::new();
    queues.push(3, bytes("hello"), future.clone());
    assert_eq!(on_writable(&mut queues, 3, Some(5)), EventControl::KEEP);
    future.get();
    assert_eq!(front(&queues, 3), None);
    assert_eq!(on_writable(&mut queues, 3, None), EventControl::DELETE);
}

#[test]
fn a_partial_write_leaves_the_rest() {
    for written in 0..7usize {
        let mut queues = WriteQueues::new();
        queues.push(3, bytes("abcdefg"), Future::new());
        assert_eq!(on_writable(&mut queues, 3, Some(written)), EventControl::KEEP);
        assert_eq!(front(&queues, 3), Some(bytes(&"abcdefg"[written..])));
    }
}

#[test]
fn a_failed_write_changes_nothing() {
    let mut queues = WriteQueues::new();
    queues.push(3, bytes("abc"), Future::new());
    assert_eq!(on_writable(&mut queues, 3, None), EventControl::KEEP);
    assert_eq!(front(&queues, 3), Some(bytes("abc")));
}

#[test]
fn an_empty_payload_is_out_at_once() {
    let mut queues = WriteQueues::new();
    let future = Future::new();
    queues.push(3, Vec::new(), future.clone());
    assert_eq!(on_writable(&mut queues, 3, Some(0)), EventControl::KEEP);
    future.get();
    assert_eq!(front(&queues, 3), None);
}

#[test]
fn payloads_go_out_in_the_order_of_their_pushes() {
    let mut queues = WriteQueues::new();
    let payloads = ["one", "twoo", "", "three"];
    for payload in payloads {
        queues.push(3, bytes(payload), Future::new());
    }
    let mut out: Vec<u8> = Vec::new();
    let mut done = Vec::new();
    while let Some(data) = front(&queues, 3) {
        let written = data.len().min(2);
        out.extend_from_slice(&data[..written]);
        if queues.advance(3, written).is_some() {
            done.push(out.len());
        }
    }
    assert_eq!(out, bytes("onetwoothree"));
    assert_eq!(done, vec![3, 7, 7, 12]);
}

#[test]
fn descriptors_have_queues_of_their_own() {
    let mut queues = WriteQueues::new();
    queues.push(3, bytes("three"), Future::new());
    queues.push(4, bytes("four"), Future::new());
    on_writable(&mut queues, 3, Some(2));
    assert_eq!(front(&queues, 3), Some(bytes("ree")));
    assert_eq!(front(&queues, 4), Some(bytes("four")));
    assert_eq!(front(&queues, -3), None);
}

#[test]
fn pushes_between_writes_go_out_last() {
    let mut queues = WriteQueues::new();
    let mut out: Vec<u8> = Vec::new();
    let mut write = |queues: &mut WriteQueues<Future>, count: usize| -> bool {
        out.extend_from_slice(&front(queues, 3).unwrap()[..count]);
        queues.advance(3, count).is_some()
    };
    queues.push(3, bytes("abc"), Future::new());
    assert!(!write(&mut queues, 1));
    queues.push(3, bytes("de"), Future::new());
    assert_eq!(on_writable(&mut queues, 3, None), EventControl::KEEP);
    assert!(!write(&mut queues, 1));
    assert!(write(&mut queues, 1));
    queues.push(3, bytes("f"), Future::new());
    assert!(write(&mut queues, 2));
    assert!(write(&mut queues, 1));
    assert_eq!(out, bytes("abcdef"));
    assert_eq!(front(&queues, 3), None);
}

fn parts(written: Written<u32>) -> (EventControl, Option<u32>) {
    (written.control, written.done)
}

#[test]
fn only_the_write_that_takes_the_last_byte_hands_out_the_future() {
    let mut queues: WriteQueues<u32> = WriteQueues::new();
    queues.push(5, vec![1, 2, 3, 4, 5], 70);
    queues.push(5, Vec::new(), 71);
    assert_eq!(front(&queues, 5), Some(vec![1, 2, 3, 4, 5]));
    assert_eq!(parts(queues.on_writable(5, Some(2))), (EventControl::KEEP, None));
    assert_eq!(front(&queues, 5), Some(vec![3, 4, 5]));
    assert_eq!(parts(queues.on_writable(5, None)), (EventControl::KEEP, None));
    assert_eq!(front(&queues, 5), Some(vec![3, 4, 5]));
    assert_eq!(parts(queues.on_writable(5, Some(0))), (EventControl::KEEP, None));
    assert_eq!(parts(queues.on_writable(5, Some(3))), (EventControl::KEEP, Some(70)));
    assert_eq!(parts(queues.on_writable(5, None)), (EventControl::KEEP, None));
    assert_eq!(parts(queues.on_writable(5, Some(0))), (EventControl::KEEP, Some(71)));
    assert_eq!(parts(queues.on_writable(5, Some(0))), (EventControl::DELETE, None));
}

#[test]
fn a_future_that_is_handed_out_is_set_in_the_end() {
    let future = Future::new();
    let written = Written { control: EventControl::KEEP, done: Some(future.clone()) };
    assert_eq!(written.finish(), EventControl::KEEP);
    future.get();
    let written: Written<Future> = Written { control: EventControl::DELETE, done: None };
    assert_eq!(written.finish(), EventControl::DELETE);
}
