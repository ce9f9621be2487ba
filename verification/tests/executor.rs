use raio::callbacks::ReadEventType;
use raio::event::{Filter, Flags, KEvent};
use raio::executor::{
    on_message, on_writable, try_message, Posting, SingleThreadedExecutor, Step, ThreadMessage,
};
use raio::kqueue::Kqueue;
use raio::write_queue::WriteQueues;
use raio::Future;
use std::time::Duration;

type Message = ThreadMessage<&'static str, &'static str, &'static str, u32, Future>;
type Post = Posting<&'static str, &'static str, &'static str, u32, Future>;
type Queue = Kqueue<&'static str, &'static str, &'static str, u32>;

const HANDLE: SingleThreadedExecutor = SingleThreadedExecutor { kqid: 7 };

fn wake_up() -> KEvent {
    KEvent {
        ident: 0,
        filter: Filter::User,
        flags: Flags { add: false, delete: false, enable: false, clear: false },
        trigger: true,
        data: 0,
    }
}

fn added(ident: usize, filter: Filter) -> KEvent {
    KEvent {
        ident,
        filter,
        flags: Flags { add: true, delete: false, enable: false, clear: false },
        trigger: false,
        data: 0,
    }
}

fn states() -> (Queue, WriteQueues<Future>) {
    (Kqueue::new(7, 8).0, WriteQueues::new())
}

fn change(step: Step<&'static str>) -> KEvent {
    match step {
        Step::Change { change } => change,
        _ => panic!("no record"),
    }
}

#[test]
fn the_handle_sends_and_wakes() {
    assert_eq!(HANDLE.notify(), wake_up());
    let post: Post = HANDLE.execute("run");
    assert!(matches!(post.message, ThreadMessage::Execute { callback: "run" }));
    assert_eq!(post.wake, Some(wake_up()));
    let post: Post = HANDLE.accept(4, "a");
    assert!(matches!(post.message, ThreadMessage::AddAcceptEvent { fd: 4, callback: "a" }));
    assert_eq!(post.wake, Some(wake_up()));
    let post: Post = HANDLE.read(5, "r");
    assert!(matches!(post.message, ThreadMessage::AddReadEvent { fd: 5, callback: "r" }));
    assert_eq!(post.wake, Some(wake_up()));
    let post: Post = HANDLE.shutdown();
    assert!(matches!(post.message, ThreadMessage::Shutdown));
    assert_eq!(post.wake, Some(wake_up()));
    let (post, _future): (Post, _) = HANDLE.schedule(9, Duration::new(2, 0));
    match post.message {
        ThreadMessage::Schedule { delay, callback } => {
            assert_eq!((delay, callback), (Duration::new(2, 0), 9))
        }
        _ => panic!("not a timer"),
    }
    assert_eq!(post.wake, Some(wake_up()));
}

#[test]
fn a_write_is_sent_without_waking() {
    let (post, future): (Post, _) = HANDLE.write(6, vec![1, 2, 3]);
    assert_eq!(post.wake, None);
    match post.message {
        ThreadMessage::AddWriteEvent { fd, payload, future: mut theirs } => {
            assert_eq!((fd, payload), (6, vec![1, 2, 3]));
            theirs.set();
        }
        _ => panic!("not a write"),
    }
    future.get();
}

#[test]
fn a_written_payload_sets_the_future_of_its_write() {
    let (mut kq, mut queues) = states();
    let (post, future): (Post, _) = HANDLE.write(6, vec![1, 2, 3]);
    let step = on_message(&mut kq, &mut queues, Some(post.message));
    assert!(matches!(step, Step::AddWriter { fd: 6 }));
    assert_eq!(kq.add_write_event(6, "writer"), added(6, Filter::Write));
    on_writable(&mut queues, 6, Some(1));
    assert_eq!(queues.front(6), Some(&vec![2, 3]));
    on_writable(&mut queues, 6, Some(2));
    future.get();
    assert_eq!(queues.front(6), None);
}

#[test]
fn without_a_message_the_loop_polls() {
    let (mut kq, mut queues) = states();
    let message: Option<Message> = None;
    assert!(matches!(on_message(&mut kq, &mut queues, message), Step::Poll));
    let message: Option<Message> = Some(ThreadMessage::Shutdown);
    assert!(matches!(on_message(&mut kq, &mut queues, message), Step::Poll));
}

#[test]
fn messages_register_their_callbacks() {
    let (mut kq, mut queues) = states();
    let message: Option<Message> = Some(ThreadMessage::Execute { callback: "run" });
    assert!(matches!(on_message(&mut kq, &mut queues, message), Step::Run { callback: "run" }));
    let message: Option<Message> = Some(ThreadMessage::AddAcceptEvent { fd: 4, callback: "a" });
    assert_eq!(change(on_message(&mut kq, &mut queues, message)), added(4, Filter::Read));
    assert!(matches!(kq.callbacks.readevents[4], Some(ReadEventType::ACCEPT("a"))));
    let message: Option<Message> = Some(ThreadMessage::AddReadEvent { fd: 5, callback: "r" });
    assert_eq!(change(on_message(&mut kq, &mut queues, message)), added(5, Filter::Read));
    assert!(matches!(kq.callbacks.readevents[5], Some(ReadEventType::READ("r"))));
    let delay = Duration::new(2, 0);
    let message: Option<Message> = Some(ThreadMessage::Schedule { delay, callback: 9 });
    let record = change(on_message(&mut kq, &mut queues, message));
    assert_eq!((record.ident, record.filter, record.data), (0, Filter::Timer, 2000));
    assert!(record.flags.add && record.flags.enable);
    assert_eq!(kq.callbacks.timers[0], Some(9));
}

#[test]
fn messages_beyond_the_table_come_back() {
    let (mut kq, mut queues) = states();
    for fd in [8, -1] {
        let message: Option<Message> = Some(ThreadMessage::AddAcceptEvent { fd, callback: "a" });
        assert!(matches!(
            try_message(&mut kq, &mut queues, message),
            Err(ThreadMessage::AddAcceptEvent { .. })
        ));
        let message: Option<Message> = Some(ThreadMessage::AddReadEvent { fd, callback: "r" });
        assert!(matches!(
            try_message(&mut kq, &mut queues, message),
            Err(ThreadMessage::AddReadEvent { .. })
        ));
        let message: Option<Message> = Some(HANDLE.write(fd, vec![1]).0.message);
        assert!(matches!(
            try_message(&mut kq, &mut queues, message),
            Err(ThreadMessage::AddWriteEvent { .. })
        ));
        assert_eq!(queues.front(fd), None);
    }
    let delay = Duration::new(u64::MAX, 0);
    let message: Option<Message> = Some(ThreadMessage::Schedule { delay, callback: 9 });
    assert!(matches!(
        try_message(&mut kq, &mut queues, message),
        Err(ThreadMessage::Schedule { callback: 9, .. })
    ));
    let message: Option<Message> = Some(ThreadMessage::AddReadEvent { fd: 7, callback: "r" });
    assert!(matches!(try_message(&mut kq, &mut queues, message), Ok(Step::Change { .. })));
    let message: Option<Message> = None;
    assert!(matches!(try_message(&mut kq, &mut queues, message), Ok(Step::Poll)));
}

#[test]
fn callbacks_run_in_the_order_of_their_messages() {
    let (mut kq, mut queues) = states();
    let mut ran = Vec::new();
    let messages: Vec<Message> = vec![
        HANDLE.execute("a").message,
        HANDLE.read(5, "r").message,
        HANDLE.execute("b").message,
        HANDLE.shutdown().message,
        HANDLE.execute("c").message,
    ];
    for message in messages {
        if let Step::Run { callback } = on_message(&mut kq, &mut queues, Some(message)) {
            ran.push(callback);
        }
    }
    assert_eq!(ran, vec!["a", "b", "c"]);
}
