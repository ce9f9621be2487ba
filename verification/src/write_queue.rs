//! The bytes that wait to be written, descriptor by descriptor.
//!
//! Each payload comes with a future, which the queues hand out once the payload is out. Futures are
//! of any type here: the queues only store them, so no future is set but the one that is handed
//! out, by whoever takes it.
use std::collections::{HashMap, VecDeque};
use vstd::prelude::*;
use crate::event::EventControl;
use crate::future::Future;
#[allow(unused_imports)]
use crate::future::{notified, raised};

verus! {

/// A payload that is waiting, or what is left of it, with the future to set once all of
/// it has been written.
pub type Chunk<F> = (Seq<u8>, F);

/// The payloads that wait to be written, each descriptor's in a queue of its own.
pub struct WriteQueues<F> {
    queues: HashMap<usize, VecDeque<(Vec<u8>, F)>>,
}

/// A queue with each payload as a sequence of bytes.
spec fn chunks<F>(queue: Seq<(Vec<u8>, F)>) -> Seq<Chunk<F>> {
    queue.map_values(|chunk: (Vec<u8>, F)| (chunk.0@, chunk.1))
}

impl<F> View for WriteQueues<F> {
    type V = Map<usize, Seq<Chunk<F>>>;

    closed spec fn view(&self) -> Map<usize, Seq<Chunk<F>>> {
        self.queues@.map_values(|queue: VecDeque<(Vec<u8>, F)>| chunks(queue@))
    }
}

/// The key of descriptor `fd`.
pub open spec fn key(fd: i32) -> usize {
    fd as usize
}

/// The payloads that wait on descriptor `fd`, the oldest first.
pub open spec fn queue_of<F>(queues: Map<usize, Seq<Chunk<F>>>, fd: i32) -> Seq<Chunk<F>> {
    if queues.contains_key(key(fd)) {
        queues[key(fd)]
    } else {
        Seq::empty()
    }
}

/// The queue once the first `written` bytes of its oldest payload are out.
pub open spec fn after_write<F>(queue: Seq<Chunk<F>>, written: nat) -> Seq<Chunk<F>> {
    if written == queue[0].0.len() {
        queue.drop_first()
    } else {
        queue.update(0, (queue[0].0.skip(written as int), queue[0].1))
    }
}

/// The future that a write of `written` bytes completes, if there is one.
pub open spec fn completed<F>(queue: Seq<Chunk<F>>, written: nat) -> Option<F> {
    if written == queue[0].0.len() {
        Some(queue[0].1)
    } else {
        None
    }
}

/// What comes of an attempt to write.
pub struct Written<F> {
    /// The verdict on the write event.
    pub control: EventControl,
    /// The future of the payload whose last byte has gone out, to be set now.
    pub done: Option<F>,
}

/// What comes of an attempt to write the oldest payload of a queue, with the number of bytes
/// written or, where the write failed, without.
pub open spec fn written_of<F>(queue: Seq<Chunk<F>>, outcome: Option<usize>) -> Written<F> {
    Written {
        control: if queue.len() > 0 {
            EventControl::KEEP
        } else {
            EventControl::DELETE
        },
        done: if queue.len() > 0 && outcome is Some {
            completed(queue, outcome->0 as nat)
        } else {
            None
        },
    }
}

/// The queues after an attempt to write the oldest payload on descriptor `fd`.
pub open spec fn after_outcome<F>(
    queues: Map<usize, Seq<Chunk<F>>>,
    fd: i32,
    outcome: Option<usize>,
) -> Map<usize, Seq<Chunk<F>>> {
    if queue_of(queues, fd).len() > 0 && outcome is Some {
        queues.insert(key(fd), after_write(queue_of(queues, fd), outcome->0 as nat))
    } else {
        queues
    }
}

/// Takes the first `written` bytes off `data`.
fn shift(data: &mut Vec<u8>, written: usize)
    requires
        written <= old(data).len(),
    ensures
        final(data)@ == old(data)@.skip(written as int),
{
    let left: usize = data.len() - written;
    for i in 0..left
        invariant
            written <= old(data).len(),
            left == old(data).len() - written,
            data.len() == old(data).len(),
            forall|j: int| 0 <= j < i ==> #[trigger] data[j] == old(data)[j + written],
            forall|j: int|
                written + i <= j < data.len() ==> #[trigger] data[j] == old(data)[j],
    {
        let front: u8 = data[i];
        let back: u8 = data[written + i];
        data[i] = back;
        data[written + i] = front;
    }
    data.truncate(left);
    assert(data@ =~= old(data)@.skip(written as int));
}

impl<F> WriteQueues<F> {
    /// No payloads on any descriptor.
    pub fn new() -> (queues: WriteQueues<F>)
        ensures
            queues@ == Map::<usize, Seq<Chunk<F>>>::empty(),
    {
        let queues = WriteQueues { queues: HashMap::new() };
        assert(queues@ =~= Map::<usize, Seq<Chunk<F>>>::empty());
        queues
    }

    /// Puts a payload behind those that wait on descriptor `fd`.
    pub fn push(&mut self, fd: i32, payload: Vec<u8>, future: F)
        ensures
            final(self)@ == old(self)@.insert(
                key(fd),
                queue_of(old(self)@, fd).push((payload@, future)),
            ),
    {
        #[verifier::truncate]
        let slot: usize = fd as usize;
        let mut queue = match self.queues.remove(&slot) {
            Some(queue) => queue,
            None => VecDeque::new(),
        };
        assert(chunks(queue@) =~= queue_of(old(self)@, fd));
        queue.push_back((payload, future));
        assert(chunks(queue@) =~= queue_of(old(self)@, fd).push((payload@, future)));
        self.queues.insert(slot, queue);
        assert(self@ =~= old(self)@.insert(
            key(fd),
            queue_of(old(self)@, fd).push((payload@, future)),
        ));
    }

    /// The oldest payload on descriptor `fd`, or what is left of it.
    pub fn front(&self, fd: i32) -> (front: Option<&Vec<u8>>)
        ensures
            front is None <==> queue_of(self@, fd).len() == 0,
            front matches Some(data) ==> data@ == queue_of(self@, fd)[0].0,
    {
        #[verifier::truncate]
        let slot: usize = fd as usize;
        match self.queues.get(&slot) {
            Some(queue) => {
                assert(chunks(queue@) == queue_of(self@, fd));
                if queue.len() == 0 {
                    None
                } else {
                    Some(&queue[0].0)
                }
            },
            None => None,
        }
    }

    /// Takes the first `written` bytes off the oldest payload on descriptor `fd`. A payload with
    /// nothing left leaves the queue, and its future comes back.
    pub fn advance(&mut self, fd: i32, written: usize) -> (done: Option<F>)
        requires
            queue_of(old(self)@, fd).len() > 0,
            written <= queue_of(old(self)@, fd)[0].0.len(),
        ensures
            final(self)@ == old(self)@.insert(
                key(fd),
                after_write(queue_of(old(self)@, fd), written as nat),
            ),
            done == completed(queue_of(old(self)@, fd), written as nat),
    {
        #[verifier::truncate]
        let slot: usize = fd as usize;
        let ghost before = queue_of(self@, fd);
        let mut queue = match self.queues.remove(&slot) {
            Some(queue) => queue,
            None => VecDeque::new(),
        };
        assert(chunks(queue@) == before);
        let done = match queue.pop_front() {
            Some((mut data, future)) => {
                if written == data.len() {
                    assert(chunks(queue@) =~= before.drop_first());
                    Some(future)
                } else {
                    shift(&mut data, written);
                    queue.push_front((data, future));
                    assert(chunks(queue@) =~= after_write(before, written as nat));
                    None
                }
            },
            None => None,
        };
        self.queues.insert(slot, queue);
        assert(self@ =~= old(self)@.insert(key(fd), after_write(before, written as nat)));
        done
    }

    /// Takes up the outcome of writing the oldest payload on descriptor `fd`: the number of bytes
    /// written, or nothing where the write failed. The future of a payload that is out comes back.
    /// Without a payload there is nothing left to wait for.
    pub fn on_writable(&mut self, fd: i32, outcome: Option<usize>) -> (written: Written<F>)
        requires
            queue_of(old(self)@, fd).len() > 0 && outcome is Some ==> outcome->0 <= queue_of(
                old(self)@,
                fd,
            )[0].0.len(),
        ensures
            written == written_of(queue_of(old(self)@, fd), outcome),
            written.control == EventControl::KEEP <==> queue_of(old(self)@, fd).len() > 0,
            final(self)@ == after_outcome(old(self)@, fd, outcome),
    {
        if self.front(fd).is_none() {
            return Written { control: EventControl::DELETE, done: None };
        }
        let done = match outcome {
            Some(count) => self.advance(fd, count),
            None => None,
        };
        Written { control: EventControl::KEEP, done }
    }
}

impl Written<Future> {
    /// Sets the future of a payload that is out, and gives the verdict on the write event.
    pub fn finish(self) -> (control: EventControl)
        ensures
            control == self.control,
            self.done matches Some(future) ==> {
                &&& future.released()
                &&& raised(future.flag())
                &&& notified(future.flag(), future.cell().1)
            },
    {
        if let Some(mut future) = self.done {
            future.set();
        }
        self.control
    }
}

/// The bytes that wait in a queue, in the order in which they go out.
pub open spec fn pending_bytes<F>(queue: Seq<Chunk<F>>) -> Seq<u8>
    decreases queue.len(),
{
    if queue.len() == 0 {
        Seq::empty()
    } else {
        queue[0].0 + pending_bytes(queue.drop_first())
    }
}

/// The futures of a queue, in the order of their payloads.
pub open spec fn futures<F>(queue: Seq<Chunk<F>>) -> Seq<F> {
    queue.map_values(|chunk: Chunk<F>| chunk.1)
}

/// Something that happens to a queue.
pub enum QueueOp<F> {
    /// A payload is pushed.
    Push { payload: Seq<u8>, future: F },
    /// A write takes this many bytes of the oldest payload.
    Write { written: nat },
    /// A write fails.
    Fail,
}

/// Whether `op` can happen to the queue: a write takes no more than the oldest payload holds.
pub open spec fn can_happen<F>(queue: Seq<Chunk<F>>, op: QueueOp<F>) -> bool {
    match op {
        QueueOp::Write { written } => queue.len() > 0 && written <= queue[0].0.len(),
        _ => true,
    }
}

/// The queue once `op` has happened to it.
pub open spec fn after_op<F>(queue: Seq<Chunk<F>>, op: QueueOp<F>) -> Seq<Chunk<F>> {
    match op {
        QueueOp::Push { payload, future } => queue.push((payload, future)),
        QueueOp::Write { written } => after_write(queue, written),
        QueueOp::Fail => queue,
    }
}

/// The queue once all of `ops` have happened to it, the first one first.
pub open spec fn after_ops<F>(queue: Seq<Chunk<F>>, ops: Seq<QueueOp<F>>) -> Seq<Chunk<F>>
    decreases ops.len(),
{
    if ops.len() == 0 {
        queue
    } else {
        after_op(after_ops(queue, ops.drop_last()), ops.last())
    }
}

/// Whether `ops` can happen to the queue one after the other.
pub open spec fn can_all_happen<F>(queue: Seq<Chunk<F>>, ops: Seq<QueueOp<F>>) -> bool
    decreases ops.len(),
{
    ops.len() == 0 || {
        &&& can_all_happen(queue, ops.drop_last())
        &&& can_happen(after_ops(queue, ops.drop_last()), ops.last())
    }
}

/// The payloads of the queue, followed by those that `ops` push.
pub open spec fn all_chunks<F>(queue: Seq<Chunk<F>>, ops: Seq<QueueOp<F>>) -> Seq<Chunk<F>>
    decreases ops.len(),
{
    if ops.len() == 0 {
        queue
    } else {
        let before = all_chunks(queue, ops.drop_last());
        match ops.last() {
            QueueOp::Push { payload, future } => before.push((payload, future)),
            _ => before,
        }
    }
}

/// The bytes that the writes in `ops` put out.
pub open spec fn bytes_out<F>(queue: Seq<Chunk<F>>, ops: Seq<QueueOp<F>>) -> Seq<u8>
    decreases ops.len(),
{
    if ops.len() == 0 {
        Seq::empty()
    } else {
        let before = bytes_out(queue, ops.drop_last());
        match ops.last() {
            QueueOp::Write { written } => before + after_ops(queue, ops.drop_last())[0].0.take(
                written as int,
            ),
            _ => before,
        }
    }
}

/// The futures that the writes in `ops` complete.
pub open spec fn futures_done<F>(queue: Seq<Chunk<F>>, ops: Seq<QueueOp<F>>) -> Seq<F>
    decreases ops.len(),
{
    if ops.len() == 0 {
        Seq::empty()
    } else {
        let before = futures_done(queue, ops.drop_last());
        match ops.last() {
            QueueOp::Write { written } => match completed(
                after_ops(queue, ops.drop_last()),
                written,
            ) {
                Some(future) => before.push(future),
                None => before,
            },
            _ => before,
        }
    }
}

/// A payload that is pushed goes out behind everything that waits already.
pub proof fn law_push_goes_last<F>(queue: Seq<Chunk<F>>, payload: Seq<u8>, future: F)
    ensures
        pending_bytes(queue.push((payload, future))) == pending_bytes(queue) + payload,
        futures(queue.push((payload, future))) == futures(queue).push(future),
    decreases queue.len(),
{
    let pushed = queue.push((payload, future));
    assert(futures(pushed) =~= futures(queue).push(future));
    if queue.len() == 0 {
        assert(pushed.drop_first() =~= Seq::<Chunk<F>>::empty());
        assert(pending_bytes(pushed.drop_first()) =~= Seq::<u8>::empty());
        assert(pending_bytes(pushed) =~= pending_bytes(queue) + payload);
    } else {
        law_push_goes_last(queue.drop_first(), payload, future);
        assert(pushed.drop_first() =~= queue.drop_first().push((payload, future)));
        assert(pending_bytes(pushed) =~= pending_bytes(queue) + payload);
    }
}

/// A write takes the bytes that it puts out off the front of those that wait, and no others.
pub proof fn law_write_takes_front<F>(queue: Seq<Chunk<F>>, written: nat)
    requires
        queue.len() > 0,
        written <= queue[0].0.len(),
    ensures
        pending_bytes(queue) == queue[0].0.take(written as int) + pending_bytes(
            after_write(queue, written),
        ),
{
    let left = after_write(queue, written);
    if written == queue[0].0.len() {
        assert(queue[0].0.take(written as int) =~= queue[0].0);
    } else {
        assert(left.drop_first() =~= queue.drop_first());
        assert(queue[0].0 =~= queue[0].0.take(written as int) + queue[0].0.skip(written as int));
        assert(pending_bytes(queue) =~= queue[0].0.take(written as int) + pending_bytes(left));
    }
}

/// However pushes, partial writes and failed writes follow on one another, what is out and what
/// waits make up what was pushed, in the order of the pushes: no byte is lost, repeated or
/// reordered.
pub proof fn law_bytes_go_out_in_order<F>(queue: Seq<Chunk<F>>, ops: Seq<QueueOp<F>>)
    requires
        can_all_happen(queue, ops),
    ensures
        pending_bytes(all_chunks(queue, ops)) == bytes_out(queue, ops) + pending_bytes(
            after_ops(queue, ops),
        ),
    decreases ops.len(),
{
    if ops.len() == 0 {
        assert(pending_bytes(queue) =~= Seq::<u8>::empty() + pending_bytes(queue));
    } else {
        let earlier = ops.drop_last();
        let before = after_ops(queue, earlier);
        law_bytes_go_out_in_order(queue, earlier);
        match ops.last() {
            QueueOp::Push { payload, future } => {
                law_push_goes_last(before, payload, future);
                law_push_goes_last(all_chunks(queue, earlier), payload, future);
            },
            QueueOp::Write { written } => {
                law_write_takes_front(before, written);
            },
            QueueOp::Fail => {},
        }
        assert(pending_bytes(all_chunks(queue, ops)) =~= bytes_out(queue, ops) + pending_bytes(
            after_ops(queue, ops),
        ));
    }
}

/// However pushes, partial writes and failed writes follow on one another, futures are completed
/// in the order in which their payloads were pushed, each of them once.
pub proof fn law_futures_complete_in_order<F>(queue: Seq<Chunk<F>>, ops: Seq<QueueOp<F>>)
    requires
        can_all_happen(queue, ops),
    ensures
        futures(all_chunks(queue, ops)) == futures_done(queue, ops) + futures(
            after_ops(queue, ops),
        ),
    decreases ops.len(),
{
    if ops.len() == 0 {
        assert(futures(queue) =~= Seq::<F>::empty() + futures(queue));
    } else {
        let earlier = ops.drop_last();
        let before = after_ops(queue, earlier);
        law_futures_complete_in_order(queue, earlier);
        match ops.last() {
            QueueOp::Push { payload, future } => {
                law_push_goes_last(before, payload, future);
                law_push_goes_last(all_chunks(queue, earlier), payload, future);
            },
            QueueOp::Write { written } => {
                if written == before[0].0.len() {
                    assert(futures(before) =~= seq![before[0].1] + futures(before.drop_first()));
                } else {
                    assert(futures(after_write(before, written)) =~= futures(before));
                }
            },
            QueueOp::Fail => {},
        }
        assert(futures(all_chunks(queue, ops)) =~= futures_done(queue, ops) + futures(
            after_ops(queue, ops),
        ));
    }
}

/// Whether `left` is what waits, with `out` gone out, once the first `done` of the payloads `all`
/// are out and the next one may be out in part.
pub open spec fn stands_at<F>(
    all: Seq<Chunk<F>>,
    done: int,
    out: Seq<u8>,
    left: Seq<Chunk<F>>,
) -> bool {
    &&& 0 <= done <= all.len()
    &&& left.len() == all.len() - done
    &&& done == all.len() ==> out == pending_bytes(all)
    &&& done < all.len() ==> {
        let gone = all[done].0.len() - left[0].0.len();
        &&& 0 <= gone
        &&& gone < all[done].0.len() || gone == 0
        &&& left == all.skip(done).update(0, (all[done].0.skip(gone), all[done].1))
        &&& out == pending_bytes(all.take(done)) + all[done].0.take(gone)
    }
}

/// The payloads whose futures are completed are out to the last byte. Of those behind them at most
/// the first is out in part, and never in full unless it is empty.
pub proof fn law_completed_payloads_are_out<F>(queue: Seq<Chunk<F>>, ops: Seq<QueueOp<F>>)
    requires
        can_all_happen(queue, ops),
    ensures
        stands_at(
            all_chunks(queue, ops),
            futures_done(queue, ops).len() as int,
            bytes_out(queue, ops),
            after_ops(queue, ops),
        ),
    decreases ops.len(),
{
    let all = all_chunks(queue, ops);
    let done = futures_done(queue, ops).len() as int;
    let out = bytes_out(queue, ops);
    let left = after_ops(queue, ops);
    if ops.len() == 0 {
        if queue.len() > 0 {
            assert(queue[0].0.skip(0) =~= queue[0].0);
            assert(queue =~= queue.skip(0).update(0, (queue[0].0.skip(0), queue[0].1)));
            assert(pending_bytes(queue.take(0)) =~= Seq::<u8>::empty());
            assert(out =~= pending_bytes(queue.take(0)) + queue[0].0.take(0));
        }
    } else {
        let earlier = ops.drop_last();
        let all0 = all_chunks(queue, earlier);
        let done0 = futures_done(queue, earlier).len() as int;
        let out0 = bytes_out(queue, earlier);
        let left0 = after_ops(queue, earlier);
        law_completed_payloads_are_out(queue, earlier);
        match ops.last() {
            QueueOp::Push { payload, future } => {
                if done0 == all0.len() {
                    assert(all.take(done) =~= all0);
                    assert(payload.skip(0) =~= payload);
                    assert(left =~= all.skip(done).update(0, (all[done].0.skip(0), all[done].1)));
                    assert(out =~= pending_bytes(all.take(done)) + all[done].0.take(0));
                } else {
                    let gone = all0[done].0.len() - left0[0].0.len();
                    assert(all.take(done) =~= all0.take(done));
                    assert(left =~= all.skip(done).update(
                        0,
                        (all[done].0.skip(gone), all[done].1),
                    ));
                }
            },
            QueueOp::Write { written } => {
                let gone = all[done0].0.len() - left0[0].0.len();
                let more = gone + written as int;
                let chunk = all[done0].0;
                assert(chunk.take(more) =~= chunk.take(gone) + left0[0].0.take(written as int));
                assert(out =~= pending_bytes(all.take(done0)) + chunk.take(more));
                if written == left0[0].0.len() {
                    assert(chunk.take(more) =~= chunk);
                    assert(all.take(done) =~= all.take(done0).push(all[done0]));
                    law_push_goes_last(all.take(done0), chunk, all[done0].1);
                    assert(left =~= all.skip(done));
                    if done == all.len() {
                        assert(all.take(done) =~= all);
                    } else {
                        assert(all[done].0.skip(0) =~= all[done].0);
                        assert(left =~= all.skip(done).update(
                            0,
                            (all[done].0.skip(0), all[done].1),
                        ));
                        assert(out =~= pending_bytes(all.take(done)) + all[done].0.take(0));
                    }
                } else {
                    assert(left0[0].0.skip(written as int) =~= chunk.skip(more));
                    assert(left =~= all.skip(done).update(0, (chunk.skip(more), all[done].1)));
                }
            },
            QueueOp::Fail => {},
        }
    }
}

/// More payloads make up at least as many bytes, and the bytes of the last one on top.
proof fn lemma_pending_grows<F>(all: Seq<Chunk<F>>, few: int, many: int)
    requires
        0 <= few < many <= all.len(),
    ensures
        pending_bytes(all.take(few)).len() + all[many - 1].0.len() <= pending_bytes(
            all.take(many),
        ).len(),
    decreases many - few,
{
    let last = all[many - 1];
    assert(all.take(many) =~= all.take(many - 1).push(last));
    law_push_goes_last(all.take(many - 1), last.0, last.1);
    if few < many - 1 {
        lemma_pending_grows(all, few, many - 1);
    }
}

/// The future of a payload that is not empty is completed if, and only if, that payload and every
/// payload before it is out to the last byte.
pub proof fn law_future_is_done_once_its_payload_is_out<F>(
    queue: Seq<Chunk<F>>,
    ops: Seq<QueueOp<F>>,
    index: int,
)
    requires
        can_all_happen(queue, ops),
        0 <= index < all_chunks(queue, ops).len(),
        all_chunks(queue, ops)[index].0.len() > 0,
    ensures
        index < futures_done(queue, ops).len() <==> bytes_out(queue, ops).len() >= pending_bytes(
            all_chunks(queue, ops).take(index + 1),
        ).len(),
{
    let all = all_chunks(queue, ops);
    let done = futures_done(queue, ops).len() as int;
    law_completed_payloads_are_out(queue, ops);
    if index < done {
        if index + 1 < done {
            lemma_pending_grows(all, index + 1, done);
        }
        if done == all.len() {
            assert(all.take(done) =~= all);
        }
    } else {
        lemma_pending_grows(all, done, index + 1);
        lemma_pending_grows(all, done, done + 1);
        if done < index {
            lemma_pending_grows(all, done + 1, index + 1);
        }
    }
}

/// Whether `ops[k]` is a write that finds the payload with number `index` at the front of the
/// queue.
pub open spec fn writes_at_turn<F>(
    queue: Seq<Chunk<F>>,
    ops: Seq<QueueOp<F>>,
    k: int,
    index: int,
) -> bool {
    &&& ops[k] is Write
    &&& futures_done(queue, ops.take(k)).len() == index
}

/// Whether `ops[k]` is the write that takes all that is left of the payload with number `index`.
pub open spec fn finishes<F>(
    queue: Seq<Chunk<F>>,
    ops: Seq<QueueOp<F>>,
    k: int,
    index: int,
) -> bool {
    &&& writes_at_turn(queue, ops, k, index)
    &&& ops[k]->written == after_ops(queue, ops.take(k))[0].0.len()
}

/// What happens to a queue later does not undo what a write has finished.
proof fn lemma_finishes_earlier<F>(
    queue: Seq<Chunk<F>>,
    ops: Seq<QueueOp<F>>,
    k: int,
    index: int,
)
    requires
        0 <= k < ops.len() - 1,
    ensures
        writes_at_turn(queue, ops, k, index) == writes_at_turn(queue, ops.drop_last(), k, index),
        finishes(queue, ops, k, index) == finishes(queue, ops.drop_last(), k, index),
{
    assert(ops.drop_last().take(k) =~= ops.take(k));
}

/// The future of a payload, empty or not, is completed if, and only if, some write has taken all
/// that was left of that payload.
pub proof fn law_future_is_done_by_the_write_that_finishes<F>(
    queue: Seq<Chunk<F>>,
    ops: Seq<QueueOp<F>>,
    index: int,
)
    requires
        can_all_happen(queue, ops),
        0 <= index,
    ensures
        index < futures_done(queue, ops).len() <==> exists|k: int|
            0 <= k < ops.len() && #[trigger] finishes(queue, ops, k, index),
    decreases ops.len(),
{
    if ops.len() > 0 {
        let earlier = ops.drop_last();
        let last = ops.len() - 1;
        law_future_is_done_by_the_write_that_finishes(queue, earlier, index);
        assert(ops.take(last) =~= earlier);
        if index < futures_done(queue, earlier).len() {
            let k = choose|k: int|
                0 <= k < earlier.len() && #[trigger] finishes(queue, earlier, k, index);
            lemma_finishes_earlier(queue, ops, k, index);
            assert(finishes(queue, ops, k, index));
        } else if index < futures_done(queue, ops).len() {
            assert(finishes(queue, ops, last, index));
        }
        if exists|k: int| 0 <= k < ops.len() && #[trigger] finishes(queue, ops, k, index) {
            let k = choose|k: int|
                0 <= k < ops.len() && #[trigger] finishes(queue, ops, k, index);
            if k < last {
                lemma_finishes_earlier(queue, ops, k, index);
                assert(finishes(queue, earlier, k, index));
            }
        }
    }
}

/// The future of an empty payload is completed if, and only if, a write has come to that payload.
/// Such a write takes no bytes.
pub proof fn law_empty_payload_is_done_once_it_is_written<F>(
    queue: Seq<Chunk<F>>,
    ops: Seq<QueueOp<F>>,
    index: int,
)
    requires
        can_all_happen(queue, ops),
        0 <= index < all_chunks(queue, ops).len(),
        all_chunks(queue, ops)[index].0.len() == 0,
    ensures
        index < futures_done(queue, ops).len() <==> exists|k: int|
            0 <= k < ops.len() && #[trigger] writes_at_turn(queue, ops, k, index),
        forall|k: int|
            0 <= k < ops.len() && #[trigger] writes_at_turn(queue, ops, k, index)
                ==> ops[k]->written == 0,
{
    law_future_is_done_by_the_write_that_finishes(queue, ops, index);
    assert forall|k: int|
        0 <= k < ops.len() && #[trigger] writes_at_turn(
            queue,
            ops,
            k,
            index,
        ) implies ops[k]->written == 0 && finishes(queue, ops, k, index) by {
        let earlier = ops.take(k);
        lemma_prefix_can_happen(queue, ops, k);
        law_completed_payloads_are_out(queue, earlier);
    }
    if exists|k: int| 0 <= k < ops.len() && #[trigger] finishes(queue, ops, k, index) {
        let k = choose|k: int| 0 <= k < ops.len() && #[trigger] finishes(queue, ops, k, index);
        assert(writes_at_turn(queue, ops, k, index));
    }
}

/// The operations before one of `ops` can happen, and so can that one behind them. The payloads
/// that they speak of come first among those of `ops`.
proof fn lemma_prefix_can_happen<F>(queue: Seq<Chunk<F>>, ops: Seq<QueueOp<F>>, k: int)
    requires
        can_all_happen(queue, ops),
        0 <= k < ops.len(),
    ensures
        can_all_happen(queue, ops.take(k)),
        can_happen(after_ops(queue, ops.take(k)), ops[k]),
        all_chunks(queue, ops.take(k)).len() <= all_chunks(queue, ops).len(),
        forall|i: int|
            0 <= i < all_chunks(queue, ops.take(k)).len() ==> #[trigger] all_chunks(queue, ops)[i]
                == all_chunks(queue, ops.take(k))[i],
    decreases ops.len(),
{
    let earlier = ops.drop_last();
    if k == ops.len() - 1 {
        assert(ops.take(k) =~= earlier);
    } else {
        lemma_prefix_can_happen(queue, earlier, k);
        assert(earlier.take(k) =~= ops.take(k));
    }
}

/// What happens to a queue completes one future at most at a time: the one of the payload whose
/// last byte goes out, in the very write that takes that byte.
pub proof fn law_one_future_per_write<F>(queue: Seq<Chunk<F>>, ops: Seq<QueueOp<F>>, op: QueueOp<F>)
    requires
        can_all_happen(queue, ops.push(op)),
    ensures
        futures_done(queue, ops.push(op)) == match op {
            QueueOp::Write { written } => match completed(after_ops(queue, ops), written) {
                Some(future) => futures_done(queue, ops).push(future),
                None => futures_done(queue, ops),
            },
            _ => futures_done(queue, ops),
        },
{
    assert(ops.push(op).drop_last() =~= ops);
}

/// An attempt to write is something that happens to the queue of its descriptor: a write of that
/// many bytes, or a failed one. The future that comes back is the one that is completed thereby.
pub proof fn law_attempt_is_a_queue_op<F>(
    queues: Map<usize, Seq<Chunk<F>>>,
    fd: i32,
    outcome: Option<usize>,
)
    requires
        queue_of(queues, fd).len() > 0,
    ensures
        ({
            let queue = queue_of(queues, fd);
            let op = match outcome {
                Some(count) => QueueOp::<F>::Write { written: count as nat },
                None => QueueOp::Fail,
            };
            &&& queue_of(after_outcome(queues, fd, outcome), fd) == after_op(queue, op)
            &&& futures_done(queue, seq![op]) == match written_of(queue, outcome).done {
                Some(future) => seq![future],
                None => Seq::empty(),
            }
        }),
{
    let queue = queue_of(queues, fd);
    let op = match outcome {
        Some(count) => QueueOp::<F>::Write { written: count as nat },
        None => QueueOp::Fail,
    };
    let ops = seq![op];
    assert(ops.drop_last() =~= Seq::<QueueOp<F>>::empty());
    assert(after_ops(queue, ops.drop_last()) == queue);
    assert(futures_done(queue, ops.drop_last()) =~= Seq::<F>::empty());
}

/// A write that fails, or that leaves a part of its payload behind, completes no future: all of
/// them stay in the queue. What is offered next is what was left.
pub proof fn law_unfinished_write_completes_nothing<F>(
    queues: Map<usize, Seq<Chunk<F>>>,
    fd: i32,
    outcome: Option<usize>,
)
    requires
        queue_of(queues, fd).len() > 0,
        outcome is Some ==> outcome->0 < queue_of(queues, fd)[0].0.len(),
    ensures
        written_of(queue_of(queues, fd), outcome).done is None,
        futures(queue_of(after_outcome(queues, fd, outcome), fd)) == futures(queue_of(queues, fd)),
        queue_of(after_outcome(queues, fd, outcome), fd)[0].0 == match outcome {
            Some(count) => queue_of(queues, fd)[0].0.skip(count as int),
            None => queue_of(queues, fd)[0].0,
        },
{
    assert(futures(queue_of(after_outcome(queues, fd, outcome), fd)) =~= futures(
        queue_of(queues, fd),
    ));
}

/// Whether no future of a queue is set through the handle that the queue holds.
pub open spec fn all_unset(queue: Seq<Chunk<Future>>) -> bool {
    forall|i: int| 0 <= i < queue.len() ==> !(#[trigger] queue[i]).1.set_here()
}

/// Futures that are unset when their payloads are pushed stay unset as long as they are in the
/// queue, and are still unset when they are handed out.
pub proof fn law_futures_are_unset_until_handed_out(
    queue: Seq<Chunk<Future>>,
    ops: Seq<QueueOp<Future>>,
)
    requires
        can_all_happen(queue, ops),
        all_unset(all_chunks(queue, ops)),
    ensures
        all_unset(after_ops(queue, ops)),
        forall|i: int|
            0 <= i < futures_done(queue, ops).len() ==> !(#[trigger] futures_done(
                queue,
                ops,
            )[i]).set_here(),
{
    let all = all_chunks(queue, ops);
    let done = futures_done(queue, ops);
    let left = after_ops(queue, ops);
    law_futures_complete_in_order(queue, ops);
    assert(all.len() == futures(all).len() == done.len() + futures(left).len());
    assert forall|i: int| 0 <= i < left.len() implies !(#[trigger] left[i]).1.set_here() by {
        assert(futures(left)[i] == futures(all)[done.len() + i]);
        assert(!all[done.len() + i].1.set_here());
    }
    assert forall|i: int| 0 <= i < done.len() implies !(#[trigger] done[i]).set_here() by {
        assert(done[i] == futures(all)[i]);
        assert(!all[i].1.set_here());
    }
}

/// A push onto one descriptor's queue, or a write from it, leaves every other queue alone.
pub proof fn law_descriptors_are_independent<F>(
    queues: Map<usize, Seq<Chunk<F>>>,
    fd: i32,
    queue: Seq<Chunk<F>>,
    other: i32,
)
    requires
        other != fd,
    ensures
        queue_of(queues.insert(key(fd), queue), fd) == queue,
        queue_of(queues.insert(key(fd), queue), other) == queue_of(queues, other),
{
    assert(fd as usize == other as usize ==> fd == other) by (bit_vector);
}

/// A descriptor is its own key, and no two descriptors have the same one. A negative number is
/// counted down from the greatest key.
pub proof fn law_key_is_the_descriptor(fd: i32, other: i32)
    ensures
        fd >= 0 ==> key(fd) == fd,
        fd < 0 ==> key(fd) > i32::MAX,
        fd < 0 && usize::BITS == 64 ==> key(fd) == 0x1_0000_0000_0000_0000 + fd,
        fd < 0 && usize::BITS == 32 ==> key(fd) == 0x1_0000_0000 + fd,
        key(fd) == key(other) ==> fd == other,
{
    assert(fd < 0 ==> (fd as usize) > 0x7fff_ffff) by (bit_vector);
    assert(fd < 0 && usize::BITS == 64 ==> (fd as usize) == 0x1_0000_0000_0000_0000 + fd)
        by (bit_vector);
    assert(fd < 0 && usize::BITS == 32 ==> (fd as usize) == 0x1_0000_0000 + fd) by (bit_vector);
    assert(fd as usize == other as usize ==> fd == other) by (bit_vector);
}

/// What waits on a descriptor is what is kept under its key. Where nothing is kept nothing waits.
pub proof fn law_queue_is_kept_under_its_key<F>(queues: Map<usize, Seq<Chunk<F>>>, fd: i32)
    requires
        fd >= 0,
    ensures
        queues.contains_key(fd as usize) ==> queue_of(queues, fd) == queues[fd as usize],
        !queues.contains_key(fd as usize) ==> queue_of(queues, fd).len() == 0,
{
}

/// A write that takes all of the oldest payload leaves the payloads behind it, and completes the
/// future of that payload. One that takes less leaves what it did not take, in front of the same
/// payloads as before, and completes nothing. Every future stays with its payload.
pub proof fn law_write_leaves_what_it_did_not_take<F>(queue: Seq<Chunk<F>>, written: nat)
    requires
        queue.len() > 0,
        written <= queue[0].0.len(),
    ensures
        written == queue[0].0.len() ==> {
            &&& completed(queue, written) == Some(queue[0].1)
            &&& after_write(queue, written).len() == queue.len() - 1
            &&& forall|i: int|
                1 <= i < queue.len() ==> after_write(queue, written)[i - 1] == #[trigger] queue[i]
        },
        written < queue[0].0.len() ==> {
            let left = after_write(queue, written);
            &&& completed(queue, written) is None
            &&& left.len() == queue.len()
            &&& left[0].1 == queue[0].1
            &&& left[0].0.len() == queue[0].0.len() - written
            &&& forall|i: int|
                written <= i < queue[0].0.len() ==> left[0].0[i - written]
                    == #[trigger] queue[0].0[i]
            &&& forall|i: int| 1 <= i < queue.len() ==> left[i] == #[trigger] queue[i]
        },
{
}

/// The verdict on a write event is to keep it just if a payload was waiting before the attempt. So
/// it is kept as long as anything waits, and it goes only when nothing does.
pub proof fn law_write_event_is_kept_while_anything_waits<F>(
    queues: Map<usize, Seq<Chunk<F>>>,
    fd: i32,
    outcome: Option<usize>,
)
    ensures
        ({
            let before = queue_of(queues, fd);
            let after = queue_of(after_outcome(queues, fd, outcome), fd);
            let control = written_of(before, outcome).control;
            &&& control == EventControl::KEEP <==> before.len() > 0
            &&& after.len() > 0 ==> control == EventControl::KEEP
            &&& control == EventControl::DELETE ==> before.len() == 0 && after.len() == 0
        }),
{
}

/// An attempt to write hands out a future just if it took all of the oldest payload, and then the
/// one of that payload. It changes the queue of its descriptor alone, and only if it took
/// something up: a failed attempt, or one with nothing waiting, changes nothing.
pub proof fn law_attempt_concerns_the_oldest_payload<F>(
    queues: Map<usize, Seq<Chunk<F>>>,
    fd: i32,
    outcome: Option<usize>,
    other: i32,
)
    ensures
        ({
            let queue = queue_of(queues, fd);
            let done = written_of(queue, outcome).done;
            &&& done is Some <==> queue.len() > 0 && outcome is Some && outcome->0
                == queue[0].0.len()
            &&& done matches Some(future) ==> future == queue[0].1
            &&& queue.len() == 0 || outcome is None ==> after_outcome(queues, fd, outcome)
                == queues
            &&& other != fd ==> queue_of(after_outcome(queues, fd, outcome), other) == queue_of(
                queues,
                other,
            )
        }),
        queue_of(queues, fd).len() > 0 && outcome is Some && outcome->0 <= queue_of(
            queues,
            fd,
        )[0].0.len() ==> pending_bytes(queue_of(queues, fd)) == queue_of(queues, fd)[0].0.take(
            outcome->0 as int,
        ) + pending_bytes(queue_of(after_outcome(queues, fd, outcome), fd)),
{
    law_key_is_the_descriptor(fd, other);
    if queue_of(queues, fd).len() > 0 && outcome is Some && outcome->0 <= queue_of(
        queues,
        fd,
    )[0].0.len() {
        law_write_takes_front(queue_of(queues, fd), outcome->0 as nat);
    }
}

} // verus!
