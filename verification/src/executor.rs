//! The executor: what its handle sends to the loop thread, and what the loop thread does with it.
use std::time::Duration;
use vstd::prelude::*;
use crate::callbacks::ReadEventType;
use crate::delay::delay_fits;
use crate::event::{EventControl, KEvent};
use crate::future::Future;
use crate::kqueue::{Kqueue, KqueueView};
use crate::write_queue::WriteQueues;
#[allow(unused_imports)]
use crate::delay::{delay_millis, delay_period, extra_nanos, whole_secs};
#[allow(unused_imports)]
use crate::delay::law_delay_is_measured_in_whole_milliseconds;
#[allow(unused_imports)]
use crate::future::initial;
#[allow(unused_imports)]
use crate::event::Filter;
#[allow(unused_imports)]
use crate::kqueue::{has_free, watched_after, Call};
#[allow(unused_imports)]
use crate::kqueue::{law_added_timer_takes_the_first_free_slot, law_free_slot_holds_no_timer};
#[allow(unused_imports)]
use crate::write_queue::{
    law_descriptors_are_independent, law_key_is_the_descriptor, law_push_goes_last,
};
#[allow(unused_imports)]
use crate::write_queue::{
    after_outcome, all_unset, futures, key, pending_bytes, queue_of, written_of, Chunk,
};

verus! {

/// A message to the loop thread. `A`, `R`, `E` and `T` are the callbacks that accept, read, run at
/// once and run on a timer, and `F` are the futures of payloads.
#[allow(inconsistent_fields)]
pub enum ThreadMessage<A, R, E, T, F> {
    Shutdown,
    Execute { callback: E },
    Schedule { delay: Duration, callback: T },
    AddAcceptEvent { fd: i32, callback: A },
    AddReadEvent { fd: i32, callback: R },
    AddWriteEvent { fd: i32, payload: Vec<u8>, future: F },
}

/// A message to send to the loop thread and, once it is sent, the record to hand to the kernel
/// queue, if there is one.
pub struct Posting<A, R, E, T, F> {
    pub message: ThreadMessage<A, R, E, T, F>,
    pub wake: Option<KEvent>,
}

/// The handle on a loop thread, by the descriptor of the kernel queue that it waits on.
pub struct SingleThreadedExecutor {
    pub kqid: i32,
}

impl SingleThreadedExecutor {
    /// The record that wakes the loop thread up.
    pub fn notify(&self) -> (change: KEvent)
        ensures
            change == KEvent::wake_up(),
    {
        KEvent::new_wake_up()
    }

    /// Has the loop thread run a callback.
    pub fn execute<A, R, E, T, F>(&self, callback: E) -> (posting: Posting<A, R, E, T, F>)
        ensures
            posting.message == (ThreadMessage::<A, R, E, T, F>::Execute { callback }),
            posting.wake == Some(KEvent::wake_up()),
    {
        Posting { message: ThreadMessage::Execute { callback }, wake: Some(self.notify()) }
    }

    /// Has the loop thread run a callback after `delay`, and again as long as it is kept. Nothing
    /// sets the future that comes back.
    pub fn schedule<A, R, E, T, F>(&self, callback: T, delay: Duration) -> (scheduled: (
        Posting<A, R, E, T, F>,
        Future,
    ))
        ensures
            scheduled.0.message == (ThreadMessage::<A, R, E, T, F>::Schedule { delay, callback }),
            scheduled.0.wake == Some(KEvent::wake_up()),
            !initial(scheduled.1.flag()),
            !scheduled.1.set_here(),
    {
        let posting = Posting {
            message: ThreadMessage::Schedule { delay, callback },
            wake: Some(self.notify()),
        };
        (posting, Future::new())
    }

    /// Has the loop thread run a callback whenever a connection waits on listener `fd`.
    pub fn accept<A, R, E, T, F>(&self, fd: i32, callback: A) -> (posting: Posting<A, R, E, T, F>)
        ensures
            posting.message == (ThreadMessage::<A, R, E, T, F>::AddAcceptEvent { fd, callback }),
            posting.wake == Some(KEvent::wake_up()),
    {
        Posting {
            message: ThreadMessage::AddAcceptEvent { fd, callback },
            wake: Some(self.notify()),
        }
    }

    /// Has the loop thread run a callback whenever stream `fd` can be read.
    pub fn read<A, R, E, T, F>(&self, fd: i32, callback: R) -> (posting: Posting<A, R, E, T, F>)
        ensures
            posting.message == (ThreadMessage::<A, R, E, T, F>::AddReadEvent { fd, callback }),
            posting.wake == Some(KEvent::wake_up()),
    {
        Posting { message: ThreadMessage::AddReadEvent { fd, callback }, wake: Some(self.notify()) }
    }

    /// Has the loop thread write `data` to stream `fd`. The future that comes back is the one that
    /// goes with the payload. The loop thread is not woken up.
    pub fn write<A, R, E, T>(&self, fd: i32, data: Vec<u8>) -> (written: (
        Posting<A, R, E, T, Future>,
        Future,
    ))
        ensures
            written.0.message == (ThreadMessage::<A, R, E, T, Future>::AddWriteEvent {
                fd,
                payload: data,
                future: written.1,
            }),
            written.0.wake is None,
            !initial(written.1.flag()),
            !written.1.set_here(),
    {
        let future = Future::new();
        let fut1 = future.clone();
        let posting = Posting {
            message: ThreadMessage::AddWriteEvent { fd, payload: data, future: fut1 },
            wake: None,
        };
        (posting, future)
    }

    /// Has the loop thread go over to waiting for events.
    pub fn shutdown<A, R, E, T, F>(&self) -> (posting: Posting<A, R, E, T, F>)
        ensures
            posting.message == ThreadMessage::<A, R, E, T, F>::Shutdown,
            posting.wake == Some(KEvent::wake_up()),
    {
        Posting { message: ThreadMessage::Shutdown, wake: Some(self.notify()) }
    }
}

/// What the loop thread does next.
pub enum Step<E> {
    /// Wait for events and handle them, then look for messages again.
    Poll,
    /// Run a callback, then look for the next message.
    Run { callback: E },
    /// Hand a record to the kernel queue, then look for the next message.
    Change { change: KEvent },
    /// Register the callback that writes what waits on descriptor `fd`, then look for the next
    /// message.
    AddWriter { fd: usize },
}

/// Whether the loop can take the message: the table has a slot for what it registers, and the
/// milliseconds of a delay can be counted.
pub open spec fn accepts<A, R, W, E, T, F>(
    kq: KqueueView<A, R, W, T>,
    message: ThreadMessage<A, R, E, T, F>,
) -> bool {
    match message {
        ThreadMessage::Shutdown => true,
        ThreadMessage::Execute { .. } => true,
        ThreadMessage::Schedule { delay, .. } => {
            &&& kq.wf()
            &&& has_free(kq.callbacks.timers)
            &&& delay_millis(delay) <= u64::MAX
        },
        ThreadMessage::AddAcceptEvent { fd, .. } => key(fd) < kq.callbacks.read.len(),
        ThreadMessage::AddReadEvent { fd, .. } => key(fd) < kq.callbacks.read.len(),
        ThreadMessage::AddWriteEvent { fd, .. } => key(fd) < kq.callbacks.write.len(),
    }
}

/// Whether `step`, with the states `kq1` and `queues1`, is what the loop thread makes of a message
/// in the states `kq` and `queues`.
pub open spec fn handled<A, R, W, E, T, F>(
    kq: KqueueView<A, R, W, T>,
    queues: Map<usize, Seq<Chunk<F>>>,
    message: ThreadMessage<A, R, E, T, F>,
    kq1: KqueueView<A, R, W, T>,
    queues1: Map<usize, Seq<Chunk<F>>>,
    step: Step<E>,
) -> bool {
    match message {
        ThreadMessage::Shutdown => step == Step::<E>::Poll && kq1 == kq && queues1 == queues,
        ThreadMessage::Execute { callback } => {
            &&& step == (Step::Run { callback })
            &&& kq1 == kq
            &&& queues1 == queues
        },
        ThreadMessage::Schedule { delay, callback } => {
            &&& kq.adds_timer(callback, kq1)
            &&& step == (Step::<E>::Change {
                change: KEvent::timer(kq1.next_timer as usize, delay_period(delay)),
            })
            &&& queues1 == queues
        },
        ThreadMessage::AddAcceptEvent { fd, callback } => {
            &&& kq1 == kq.reading(key(fd), ReadEventType::ACCEPT(callback))
            &&& step == (Step::<E>::Change { change: KEvent::addition(key(fd), Filter::Read) })
            &&& queues1 == queues
        },
        ThreadMessage::AddReadEvent { fd, callback } => {
            &&& kq1 == kq.reading(key(fd), ReadEventType::READ(callback))
            &&& step == (Step::<E>::Change { change: KEvent::addition(key(fd), Filter::Read) })
            &&& queues1 == queues
        },
        ThreadMessage::AddWriteEvent { fd, payload, future } => {
            &&& kq1 == kq
            &&& queues1 == queues.insert(
                key(fd),
                queue_of(queues, fd).push((payload@, future)),
            )
            &&& step == (Step::<E>::AddWriter { fd: key(fd) })
        },
    }
}

/// Takes up the next message, or that there is none, in the loop thread.
pub fn on_message<A, R, W, E, T, F>(
    kq: &mut Kqueue<A, R, W, T>,
    queues: &mut WriteQueues<F>,
    received: Option<ThreadMessage<A, R, E, T, F>>,
) -> (step: Step<E>)
    requires
        received matches Some(message) ==> accepts(old(kq)@, message),
    ensures
        received is None ==> step == Step::<E>::Poll && final(kq)@ == old(kq)@ && final(queues)@
            == old(queues)@,
        received matches Some(message) ==> handled(
            old(kq)@,
            old(queues)@,
            message,
            final(kq)@,
            final(queues)@,
            step,
        ),
        old(kq)@.wf() ==> final(kq)@.wf(),
{
    match received {
        Some(ThreadMessage::Shutdown) => Step::Poll,
        Some(ThreadMessage::AddAcceptEvent { fd, callback }) => {
            #[verifier::truncate]
            let slot: usize = fd as usize;
            Step::Change { change: kq.add_read_event(slot, ReadEventType::ACCEPT(callback)) }
        },
        Some(ThreadMessage::AddReadEvent { fd, callback }) => {
            #[verifier::truncate]
            let slot: usize = fd as usize;
            Step::Change { change: kq.add_read_event(slot, ReadEventType::READ(callback)) }
        },
        Some(ThreadMessage::AddWriteEvent { fd, payload, future }) => {
            queues.push(fd, payload, future);
            #[verifier::truncate]
            let slot: usize = fd as usize;
            Step::AddWriter { fd: slot }
        },
        Some(ThreadMessage::Execute { callback }) => Step::Run { callback },
        Some(ThreadMessage::Schedule { delay, callback }) => {
            Step::Change { change: kq.add_timer(callback, delay) }
        },
        None => Step::Poll,
    }
}

/// Takes up the next message, or that there is none, as [`on_message`] does. A message that the
/// loop cannot take comes back.
pub fn try_message<A, R, W, E, T, F>(
    kq: &mut Kqueue<A, R, W, T>,
    queues: &mut WriteQueues<F>,
    received: Option<ThreadMessage<A, R, E, T, F>>,
) -> (taken: Result<Step<E>, ThreadMessage<A, R, E, T, F>>)
    requires
        old(kq)@.wf(),
    ensures
        final(kq)@.wf(),
        received is None ==> taken == Ok::<Step<E>, ThreadMessage<A, R, E, T, F>>(Step::Poll)
            && final(kq)@ == old(kq)@ && final(queues)@ == old(queues)@,
        received matches Some(message) ==> (taken is Ok <==> accepts(old(kq)@, message)),
        received matches Some(message) ==> match taken {
            Ok(step) => handled(
                old(kq)@,
                old(queues)@,
                message,
                final(kq)@,
                final(queues)@,
                step,
            ),
            Err(unused) => {
                &&& unused == message
                &&& final(kq)@ == old(kq)@
                &&& final(queues)@ == old(queues)@
            },
        },
{
    let fits: bool = match &received {
        Some(ThreadMessage::Schedule { delay, .. }) => kq.has_free_timer() && delay_fits(delay),
        Some(ThreadMessage::AddAcceptEvent { fd, .. }) => {
            #[verifier::truncate]
            let slot: usize = *fd as usize;
            slot < kq.callbacks.readevents.len()
        },
        Some(ThreadMessage::AddReadEvent { fd, .. }) => {
            #[verifier::truncate]
            let slot: usize = *fd as usize;
            slot < kq.callbacks.readevents.len()
        },
        Some(ThreadMessage::AddWriteEvent { fd, .. }) => {
            #[verifier::truncate]
            let slot: usize = *fd as usize;
            slot < kq.callbacks.writeevents.len()
        },
        _ => true,
    };
    if fits {
        return Ok(on_message(kq, queues, received));
    }
    match received {
        Some(message) => Err(message),
        None => Ok(Step::Poll),
    }
}

/// Takes up the outcome of writing the oldest payload on descriptor `fd`: the number of bytes
/// written, or nothing where the write failed. The future of a payload that is out is set, and the
/// verdict on the write event comes back.
pub fn on_writable(queues: &mut WriteQueues<Future>, fd: i32, outcome: Option<usize>) -> (control:
    EventControl)
    requires
        queue_of(old(queues)@, fd).len() > 0 && outcome is Some ==> outcome->0 <= queue_of(
            old(queues)@,
            fd,
        )[0].0.len(),
    ensures
        control == written_of(queue_of(old(queues)@, fd), outcome).control,
        control == EventControl::KEEP <==> queue_of(old(queues)@, fd).len() > 0,
        written_of(queue_of(old(queues)@, fd), outcome).done matches Some(future)
            ==> future.released(),
        final(queues)@ == after_outcome(old(queues)@, fd, outcome),
{
    queues.on_writable(fd, outcome).finish()
}

/// The callback of a message is the one that runs when its descriptor can be read.
pub proof fn law_message_callback_runs<A, R, W, E, T, F>(
    kq: KqueueView<A, R, W, T>,
    queues: Map<usize, Seq<Chunk<F>>>,
    message: ThreadMessage<A, R, E, T, F>,
    kq1: KqueueView<A, R, W, T>,
    queues1: Map<usize, Seq<Chunk<F>>>,
    step: Step<E>,
    event: KEvent,
)
    requires
        accepts(kq, message),
        handled(kq, queues, message, kq1, queues1, step),
        event.filter == Filter::Read,
    ensures
        match message {
            ThreadMessage::AddAcceptEvent { fd, callback } => fd >= 0 && event.ident == fd
                ==> kq1.due(event) == Some::<Call<'_, A, R, T>>(
                Call::Accept { fd, callback: &callback },
            ),
            ThreadMessage::AddReadEvent { fd, callback } => fd >= 0 && event.ident == fd
                ==> kq1.due(event) == Some::<Call<'_, A, R, T>>(
                Call::Read { fd, callback: &callback },
            ),
            _ => kq1.due(event) == kq.due(event),
        },
{
}

/// The callback of a timer message is the one that runs when its timer expires, and the period
/// that the kernel queue is told is the delay in whole milliseconds.
pub proof fn law_scheduled_callback_runs<A, R, W, E, T, F>(
    kq: KqueueView<A, R, W, T>,
    queues: Map<usize, Seq<Chunk<F>>>,
    delay: Duration,
    callback: T,
    kq1: KqueueView<A, R, W, T>,
    queues1: Map<usize, Seq<Chunk<F>>>,
    step: Step<E>,
    event: KEvent,
)
    requires
        accepts(kq, ThreadMessage::<A, R, E, T, F>::Schedule { delay, callback }),
        handled(
            kq,
            queues,
            ThreadMessage::<A, R, E, T, F>::Schedule { delay, callback },
            kq1,
            queues1,
            step,
        ),
        delay_millis(delay) <= isize::MAX,
        event.filter == Filter::Timer,
    ensures
        step is Change,
        step->change.filter == Filter::Timer,
        step->change.data == delay_millis(delay),
        event.ident == step->change.ident ==> kq1.due(event) == Some::<Call<'_, A, R, T>>(
            Call::Timer { callback: &callback },
        ),
{
}

/// A payload of a message goes out behind everything that waits on its descriptor already, and its
/// future is the last in line. Other descriptors are not affected.
pub proof fn law_payload_is_queued_last<A, R, W, E, T, F>(
    kq: KqueueView<A, R, W, T>,
    queues: Map<usize, Seq<Chunk<F>>>,
    fd: i32,
    payload: Vec<u8>,
    future: F,
    kq1: KqueueView<A, R, W, T>,
    queues1: Map<usize, Seq<Chunk<F>>>,
    step: Step<E>,
    other: i32,
)
    requires
        handled(
            kq,
            queues,
            ThreadMessage::<A, R, E, T, F>::AddWriteEvent { fd, payload, future },
            kq1,
            queues1,
            step,
        ),
    ensures
        pending_bytes(queue_of(queues1, fd)) == pending_bytes(queue_of(queues, fd)) + payload@,
        futures(queue_of(queues1, fd)) == futures(queue_of(queues, fd)).push(future),
        other != fd ==> queue_of(queues1, other) == queue_of(queues, other),
{
    law_push_goes_last(queue_of(queues, fd), payload@, future);
    if other != fd {
        law_descriptors_are_independent(queues, fd, queues1[key(fd)], other);
    }
}

/// The future of a payload that is sent unset lies unset in the queue, behind the others. When an
/// attempt to write hands a future out it is still unset, and those that stay behind are too.
pub proof fn law_sent_future_is_unset_until_handed_out<A, R, W, E, T>(
    kq: KqueueView<A, R, W, T>,
    queues: Map<usize, Seq<Chunk<Future>>>,
    fd: i32,
    payload: Vec<u8>,
    future: Future,
    kq1: KqueueView<A, R, W, T>,
    queues1: Map<usize, Seq<Chunk<Future>>>,
    step: Step<E>,
    outcome: Option<usize>,
)
    requires
        handled(
            kq,
            queues,
            ThreadMessage::<A, R, E, T, Future>::AddWriteEvent { fd, payload, future },
            kq1,
            queues1,
            step,
        ),
        !future.set_here(),
        all_unset(queue_of(queues, fd)),
    ensures
        queue_of(queues1, fd).last() == (payload@, future),
        all_unset(queue_of(queues1, fd)),
        written_of(queue_of(queues1, fd), outcome).done matches Some(done) ==> !done.set_here(),
        all_unset(queue_of(after_outcome(queues1, fd, outcome), fd)),
{
    let queue = queue_of(queues1, fd);
    let left = queue_of(after_outcome(queues1, fd, outcome), fd);
    assert forall|i: int| 0 <= i < queue.len() implies !(#[trigger] queue[i]).1.set_here() by {
        if i < queue.len() - 1 {
            assert(queue[i] == queue_of(queues, fd)[i]);
        }
    }
    assert forall|i: int| 0 <= i < left.len() implies !(#[trigger] left[i]).1.set_here() by {
        if left.len() < queue.len() {
            assert(left[i] == queue[i + 1]);
        } else {
            assert(left[i].1 == queue[i].1);
        }
    }
}

/// A message keeps the queue in step with what the kernel queue has been asked to watch, as long as
/// the record that comes of it is handed to the kernel queue.
pub proof fn law_message_keeps_in_step<A, R, W, E, T, F>(
    kq: KqueueView<A, R, W, T>,
    queues: Map<usize, Seq<Chunk<F>>>,
    message: ThreadMessage<A, R, E, T, F>,
    kq1: KqueueView<A, R, W, T>,
    queues1: Map<usize, Seq<Chunk<F>>>,
    step: Step<E>,
    watched: Set<(Filter, usize)>,
)
    requires
        accepts(kq, message),
        handled(kq, queues, message, kq1, queues1, step),
        kq.in_step(watched),
    ensures
        kq1.in_step(
            match step {
                Step::Change { change } => watched_after(watched, change),
                _ => watched,
            },
        ),
{
}

/// The callbacks that a sequence of messages asks to run at once, in order.
pub open spec fn asked_to_run<A, R, E, T, F>(messages: Seq<ThreadMessage<A, R, E, T, F>>) -> Seq<E>
    decreases messages.len(),
{
    if messages.len() == 0 {
        Seq::empty()
    } else {
        let before = asked_to_run(messages.drop_last());
        match messages.last() {
            ThreadMessage::Execute { callback } => before.push(callback),
            _ => before,
        }
    }
}

/// The callbacks that a sequence of steps runs, in order.
pub open spec fn run_by<E>(steps: Seq<Step<E>>) -> Seq<E>
    decreases steps.len(),
{
    if steps.len() == 0 {
        Seq::empty()
    } else {
        let before = run_by(steps.drop_last());
        match steps.last() {
            Step::Run { callback } => before.push(callback),
            _ => before,
        }
    }
}

/// Whether `steps` are what the loop thread makes of `messages`, one after the other, where the
/// states before step `i` are `kqs[i]` and `queues[i]` and those behind it are `kqs1[i]` and
/// `queues1[i]`. Between two steps the states may change in any way: events are handled there.
pub open spec fn all_handled<A, R, W, E, T, F>(
    kqs: Seq<KqueueView<A, R, W, T>>,
    queues: Seq<Map<usize, Seq<Chunk<F>>>>,
    messages: Seq<ThreadMessage<A, R, E, T, F>>,
    kqs1: Seq<KqueueView<A, R, W, T>>,
    queues1: Seq<Map<usize, Seq<Chunk<F>>>>,
    steps: Seq<Step<E>>,
) -> bool {
    &&& messages.len() == steps.len()
    &&& forall|i: int|
        0 <= i < messages.len() ==> handled(
            kqs[i],
            queues[i],
            #[trigger] messages[i],
            kqs1[i],
            queues1[i],
            steps[i],
        )
}

/// Callbacks that are to run at once run in the order of their messages, each of them once, and no
/// other callback runs at once.
pub proof fn law_executed_in_order<A, R, W, E, T, F>(
    kqs: Seq<KqueueView<A, R, W, T>>,
    queues: Seq<Map<usize, Seq<Chunk<F>>>>,
    messages: Seq<ThreadMessage<A, R, E, T, F>>,
    kqs1: Seq<KqueueView<A, R, W, T>>,
    queues1: Seq<Map<usize, Seq<Chunk<F>>>>,
    steps: Seq<Step<E>>,
)
    requires
        all_handled(kqs, queues, messages, kqs1, queues1, steps),
    ensures
        run_by(steps) == asked_to_run(messages),
    decreases messages.len(),
{
    if messages.len() > 0 {
        let last = messages.len() - 1;
        let before = messages.drop_last();
        assert forall|i: int| 0 <= i < before.len() implies handled(
            kqs[i],
            queues[i],
            #[trigger] before[i],
            kqs1[i],
            queues1[i],
            steps.drop_last()[i],
        ) by {
            assert(before[i] == messages[i]);
        }
        law_executed_in_order(kqs, queues, before, kqs1, queues1, steps.drop_last());
        assert(handled(
            kqs[last],
            queues[last],
            messages[last],
            kqs1[last],
            queues1[last],
            steps[last],
        ));
    }
}

/// Two calls of [`SingleThreadedExecutor::execute`], whose messages reach the loop thread in the
/// order of the calls, have their callbacks run in that order.
pub proof fn law_two_executes_run_in_order<A, R, W, E, T, F>(
    kqs: Seq<KqueueView<A, R, W, T>>,
    queues: Seq<Map<usize, Seq<Chunk<F>>>>,
    first: Posting<A, R, E, T, F>,
    second: Posting<A, R, E, T, F>,
    a: E,
    b: E,
    kqs1: Seq<KqueueView<A, R, W, T>>,
    queues1: Seq<Map<usize, Seq<Chunk<F>>>>,
    steps: Seq<Step<E>>,
)
    requires
        first.message == (ThreadMessage::<A, R, E, T, F>::Execute { callback: a }),
        second.message == (ThreadMessage::<A, R, E, T, F>::Execute { callback: b }),
        all_handled(kqs, queues, seq![first.message, second.message], kqs1, queues1, steps),
    ensures
        steps =~= seq![Step::Run { callback: a }, Step::Run { callback: b }],
        run_by(steps) =~= seq![a, b],
{
    let messages = seq![first.message, second.message];
    assert(handled(kqs[0], queues[0], messages[0], kqs1[0], queues1[0], steps[0]));
    assert(handled(kqs[1], queues[1], messages[1], kqs1[1], queues1[1], steps[1]));
    reveal_with_fuel(run_by, 3);
}

/// A message to shut down has the loop thread wait for events, and one to execute has it run just
/// the callback of the message. Neither changes anything.
pub proof fn law_shutdown_and_execute_change_nothing<A, R, W, E, T, F>(
    kq: KqueueView<A, R, W, T>,
    queues: Map<usize, Seq<Chunk<F>>>,
    message: ThreadMessage<A, R, E, T, F>,
    kq1: KqueueView<A, R, W, T>,
    queues1: Map<usize, Seq<Chunk<F>>>,
    step: Step<E>,
)
    requires
        message is Shutdown || message is Execute,
        handled(kq, queues, message, kq1, queues1, step),
    ensures
        kq1 == kq,
        queues1 == queues,
        message is Shutdown ==> step is Poll,
        message matches ThreadMessage::Execute { callback } ==> step == (Step::Run { callback }),
{
}

/// A message to accept from a descriptor, or to read from it, puts its callback into the read slot
/// of that descriptor and has the kernel queue asked to watch that descriptor for reading. Nothing
/// else changes.
pub proof fn law_reader_is_registered_on_its_descriptor<A, R, W, E, T, F>(
    kq: KqueueView<A, R, W, T>,
    queues: Map<usize, Seq<Chunk<F>>>,
    message: ThreadMessage<A, R, E, T, F>,
    kq1: KqueueView<A, R, W, T>,
    queues1: Map<usize, Seq<Chunk<F>>>,
    step: Step<E>,
    fd: i32,
    callback: ReadEventType<A, R>,
)
    requires
        message == match callback {
            ReadEventType::ACCEPT(accept) => ThreadMessage::<A, R, E, T, F>::AddAcceptEvent {
                fd,
                callback: accept,
            },
            ReadEventType::READ(read) => ThreadMessage::<A, R, E, T, F>::AddReadEvent {
                fd,
                callback: read,
            },
        },
        0 <= fd < kq.callbacks.read.len(),
        handled(kq, queues, message, kq1, queues1, step),
    ensures
        kq1.callbacks.read.len() == kq.callbacks.read.len(),
        kq1.callbacks.read[fd as int] == Some(callback),
        forall|i: int|
            0 <= i < kq.callbacks.read.len() && i != fd ==> #[trigger] kq1.callbacks.read[i]
                == kq.callbacks.read[i],
        kq1.callbacks.write == kq.callbacks.write,
        kq1.callbacks.timers == kq.callbacks.timers,
        kq1.next_timer == kq.next_timer,
        kq1.kqid == kq.kqid,
        queues1 == queues,
        step matches Step::Change { change } && {
            &&& change.ident == fd
            &&& change.filter == Filter::Read
            &&& change.flags.add
            &&& !change.flags.delete && !change.flags.enable && !change.flags.clear
            &&& !change.trigger
            &&& change.data == 0
        },
{
}

/// A message to write has its payload wait on the descriptor that it names, behind what waits there
/// already, and the writer registered on that same descriptor. Once that writer is registered, its
/// callback is in the write slot of the descriptor and the kernel queue has been asked to watch the
/// descriptor for writing.
pub proof fn law_writer_is_registered_where_the_payload_waits<A, R, W, E, T, F>(
    kq: KqueueView<A, R, W, T>,
    queues: Map<usize, Seq<Chunk<F>>>,
    fd: i32,
    payload: Vec<u8>,
    future: F,
    kq1: KqueueView<A, R, W, T>,
    queues1: Map<usize, Seq<Chunk<F>>>,
    step: Step<E>,
    writer: W,
    watched: Set<(Filter, usize)>,
)
    requires
        0 <= fd < kq.callbacks.write.len(),
        handled(
            kq,
            queues,
            ThreadMessage::<A, R, E, T, F>::AddWriteEvent { fd, payload, future },
            kq1,
            queues1,
            step,
        ),
    ensures
        kq1 == kq,
        queues1.contains_key(fd as usize),
        queues1[fd as usize].last() == (payload@, future),
        queues1[fd as usize].len() == 1 + (if queues.contains_key(fd as usize) {
            queues[fd as usize].len()
        } else {
            0
        }),
        queues.contains_key(fd as usize) ==> queues1[fd as usize].drop_last()
            == queues[fd as usize],
        forall|other: usize|
            other != fd ==> (#[trigger] queues1.contains_key(other) <==> queues.contains_key(
                other,
            )),
        forall|other: usize|
            other != fd && queues.contains_key(other) ==> #[trigger] queues1[other]
                == queues[other],
        step is AddWriter,
        step->fd == fd,
        kq1.writing(step->fd, writer).callbacks.write[fd as int] == Some(writer),
        watched_after(watched, KEvent::addition(step->fd, Filter::Write)).contains(
            (Filter::Write, fd as usize),
        ),
{
    if queues.contains_key(fd as usize) {
        assert(queues1[fd as usize].drop_last() =~= queues[fd as usize]);
    }
}

/// A message to schedule puts its callback into an empty timer slot and has the kernel queue asked
/// to start that timer, with a period of as many milliseconds as fit into the delay. Nothing else
/// changes but where the next free slot is searched.
pub proof fn law_timer_is_started_in_its_slot<A, R, W, E, T, F>(
    kq: KqueueView<A, R, W, T>,
    queues: Map<usize, Seq<Chunk<F>>>,
    delay: Duration,
    callback: T,
    kq1: KqueueView<A, R, W, T>,
    queues1: Map<usize, Seq<Chunk<F>>>,
    step: Step<E>,
)
    requires
        kq.wf(),
        handled(
            kq,
            queues,
            ThreadMessage::<A, R, E, T, F>::Schedule { delay, callback },
            kq1,
            queues1,
            step,
        ),
        whole_secs(delay) * 1_000_000_000 + extra_nanos(delay) < (isize::MAX + 1) * 1_000_000,
    ensures
        queues1 == queues,
        kq1.callbacks.read == kq.callbacks.read,
        kq1.callbacks.write == kq.callbacks.write,
        kq1.kqid == kq.kqid,
        step matches Step::Change { change } && {
            let time = whole_secs(delay) * 1_000_000_000 + extra_nanos(delay);
            &&& change.filter == Filter::Timer
            &&& change.flags.add && change.flags.enable
            &&& !change.flags.delete && !change.flags.clear && !change.trigger
            &&& change.data * 1_000_000 <= time < (change.data + 1) * 1_000_000
            &&& change.ident < kq.callbacks.timers.len()
            &&& kq.callbacks.timers[change.ident as int] is None
            &&& kq1.callbacks.timers[change.ident as int] == Some(callback)
            &&& kq1.callbacks.timers.len() == kq.callbacks.timers.len()
            &&& forall|i: int|
                0 <= i < kq.callbacks.timers.len() && i != change.ident
                    ==> #[trigger] kq1.callbacks.timers[i] == kq.callbacks.timers[i]
        },
{
    law_delay_is_measured_in_whole_milliseconds(delay);
    law_added_timer_takes_the_first_free_slot(kq, callback, kq1);
}

/// The loop takes every message but these: one that names a descriptor without a slot in the table,
/// and one to schedule when all timers are taken or the milliseconds of the delay cannot be
/// counted.
pub proof fn law_messages_in_range_are_taken<A, R, W, E, T, F>(
    kq: KqueueView<A, R, W, T>,
    message: ThreadMessage<A, R, E, T, F>,
)
    requires
        kq.wf(),
    ensures
        match message {
            ThreadMessage::Shutdown => accepts(kq, message),
            ThreadMessage::Execute { .. } => accepts(kq, message),
            ThreadMessage::Schedule { delay, .. } => accepts(kq, message) <==> {
                &&& !(forall|i: int|
                    0 <= i < kq.callbacks.timers.len()
                        ==> #[trigger] kq.callbacks.timers[i] is Some)
                &&& whole_secs(delay) * 1_000_000_000 + extra_nanos(delay) < (u64::MAX + 1)
                    * 1_000_000
            },
            ThreadMessage::AddAcceptEvent { fd, .. } => if fd >= 0 {
                accepts(kq, message) <==> fd < kq.callbacks.read.len()
            } else {
                kq.callbacks.read.len() <= i32::MAX ==> !accepts(kq, message)
            },
            ThreadMessage::AddReadEvent { fd, .. } => if fd >= 0 {
                accepts(kq, message) <==> fd < kq.callbacks.read.len()
            } else {
                kq.callbacks.read.len() <= i32::MAX ==> !accepts(kq, message)
            },
            ThreadMessage::AddWriteEvent { fd, .. } => if fd >= 0 {
                accepts(kq, message) <==> fd < kq.callbacks.write.len()
            } else {
                kq.callbacks.write.len() <= i32::MAX ==> !accepts(kq, message)
            },
        },
{
    match message {
        ThreadMessage::Schedule { delay, .. } => {
            law_delay_is_measured_in_whole_milliseconds(delay);
            law_free_slot_holds_no_timer(kq.callbacks.timers);
        },
        ThreadMessage::AddAcceptEvent { fd, .. } => law_key_is_the_descriptor(fd, fd),
        ThreadMessage::AddReadEvent { fd, .. } => law_key_is_the_descriptor(fd, fd),
        ThreadMessage::AddWriteEvent { fd, .. } => law_key_is_the_descriptor(fd, fd),
        _ => {},
    }
}

} // verus!
