//! The table that holds the callbacks of an event loop.
use vstd::prelude::*;

verus! {

/// A callback on a readable descriptor: one that accepts connections, of type `A`, or one that
/// reads from a stream, of type `R`.
#[derive(Debug)]
pub enum ReadEventType<A, R> {
    ACCEPT(A),
    READ(R),
}

/// The callbacks of an event loop. Those on descriptors are found by descriptor, timers by timer
/// number. An empty slot has no callback.
pub struct Callbacks<A, R, W, T> {
    pub readevents: Vec<Option<ReadEventType<A, R>>>,
    pub writeevents: Vec<Option<W>>,
    pub timers: Vec<Option<T>>,
}

/// The slots of a [`Callbacks`] table.
#[verifier::ext_equal]
pub struct CallbacksView<A, R, W, T> {
    pub read: Seq<Option<ReadEventType<A, R>>>,
    pub write: Seq<Option<W>>,
    pub timers: Seq<Option<T>>,
}

impl<A, R, W, T> View for Callbacks<A, R, W, T> {
    type V = CallbacksView<A, R, W, T>;

    open spec fn view(&self) -> CallbacksView<A, R, W, T> {
        CallbacksView {
            read: self.readevents@,
            write: self.writeevents@,
            timers: self.timers@,
        }
    }
}

/// A sequence of `len` empty slots.
pub open spec fn empty_slots<C>(len: nat) -> Seq<Option<C>> {
    Seq::new(len, |i: int| None)
}

impl<A, R, W, T> CallbacksView<A, R, W, T> {
    /// The table with `callback` in read slot `fd`.
    pub open spec fn with_read(self, fd: int, callback: ReadEventType<A, R>) -> Self {
        CallbacksView { read: self.read.update(fd, Some(callback)), ..self }
    }

    /// The table with `callback` in write slot `fd`.
    pub open spec fn with_write(self, fd: int, callback: W) -> Self {
        CallbacksView { write: self.write.update(fd, Some(callback)), ..self }
    }

    /// The table with `callback` in timer slot `timer`.
    pub open spec fn with_timer(self, timer: int, callback: T) -> Self {
        CallbacksView { timers: self.timers.update(timer, Some(callback)), ..self }
    }

    /// The table with read slot `fd` empty.
    pub open spec fn without_read(self, fd: int) -> Self {
        CallbacksView { read: self.read.update(fd, None), ..self }
    }

    /// The table with write slot `fd` empty.
    pub open spec fn without_write(self, fd: int) -> Self {
        CallbacksView { write: self.write.update(fd, None), ..self }
    }

    /// The table with timer slot `timer` empty.
    pub open spec fn without_timer(self, timer: int) -> Self {
        CallbacksView { timers: self.timers.update(timer, None), ..self }
    }
}

impl<A, R, W, T> Callbacks<A, R, W, T> {
    /// A table without callbacks, for descriptors below `num_fds` and `num_timers` timers.
    pub fn new(num_fds: usize, num_timers: usize) -> (table: Self)
        ensures
            table@.read == empty_slots::<ReadEventType<A, R>>(num_fds as nat),
            table@.write == empty_slots::<W>(num_fds as nat),
            table@.timers == empty_slots::<T>(num_timers as nat),
    {
        let mut readevents: Vec<Option<ReadEventType<A, R>>> = Vec::new();
        let mut writeevents: Vec<Option<W>> = Vec::new();
        let mut timers: Vec<Option<T>> = Vec::new();
        for fd in 0..num_fds
            invariant
                readevents@ == empty_slots::<ReadEventType<A, R>>(fd as nat),
                writeevents@ == empty_slots::<W>(fd as nat),
        {
            readevents.push(None);
            writeevents.push(None);
        }
        for timer in 0..num_timers
            invariant
                timers@ == empty_slots::<T>(timer as nat),
        {
            timers.push(None);
        }
        Callbacks { readevents, writeevents, timers }
    }
}

/// The slots of a table are the entries of its three lists.
pub proof fn law_slots_are_entries<A, R, W, T>(table: Callbacks<A, R, W, T>)
    ensures
        table@.read == table.readevents@,
        table@.write == table.writeevents@,
        table@.timers == table.timers@,
{
}

/// As many empty slots as were asked for are that many, and none of them has a callback.
pub proof fn law_empty_slots_hold_nothing<C>(len: nat)
    ensures
        empty_slots::<C>(len).len() == len,
        forall|i: int| 0 <= i < len ==> #[trigger] empty_slots::<C>(len)[i] == None::<C>,
{
}

/// To put a callback into a slot, or to take it out, changes that slot alone: every other slot of
/// the same kind, and every slot of another kind, keeps what it has.
pub proof fn law_changes_concern_one_slot<A, R, W, T>(
    table: CallbacksView<A, R, W, T>,
    slot: int,
    callback: ReadEventType<A, R>,
    writer: W,
    timer: T,
)
    ensures
        0 <= slot < table.read.len() ==> {
            &&& table.with_read(slot, callback).read.len() == table.read.len()
            &&& table.with_read(slot, callback).read[slot] == Some(callback)
            &&& table.without_read(slot).read.len() == table.read.len()
            &&& table.without_read(slot).read[slot] is None
        },
        forall|i: int|
            0 <= i < table.read.len() && i != slot && 0 <= slot < table.read.len() ==> (
            #[trigger] table.with_read(slot, callback).read[i]) == table.read[i],
        forall|i: int|
            0 <= i < table.read.len() && i != slot && 0 <= slot < table.read.len() ==> (
            #[trigger] table.without_read(slot).read[i]) == table.read[i],
        0 <= slot < table.write.len() ==> {
            &&& table.with_write(slot, writer).write.len() == table.write.len()
            &&& table.with_write(slot, writer).write[slot] == Some(writer)
            &&& table.without_write(slot).write.len() == table.write.len()
            &&& table.without_write(slot).write[slot] is None
        },
        forall|i: int|
            0 <= i < table.write.len() && i != slot && 0 <= slot < table.write.len() ==> (
            #[trigger] table.with_write(slot, writer).write[i]) == table.write[i],
        forall|i: int|
            0 <= i < table.write.len() && i != slot && 0 <= slot < table.write.len() ==> (
            #[trigger] table.without_write(slot).write[i]) == table.write[i],
        0 <= slot < table.timers.len() ==> {
            &&& table.with_timer(slot, timer).timers.len() == table.timers.len()
            &&& table.with_timer(slot, timer).timers[slot] == Some(timer)
            &&& table.without_timer(slot).timers.len() == table.timers.len()
            &&& table.without_timer(slot).timers[slot] is None
        },
        forall|i: int|
            0 <= i < table.timers.len() && i != slot && 0 <= slot < table.timers.len() ==> (
            #[trigger] table.with_timer(slot, timer).timers[i]) == table.timers[i],
        forall|i: int|
            0 <= i < table.timers.len() && i != slot && 0 <= slot < table.timers.len() ==> (
            #[trigger] table.without_timer(slot).timers[i]) == table.timers[i],
        table.with_read(slot, callback).write == table.write,
        table.with_read(slot, callback).timers == table.timers,
        table.without_read(slot).write == table.write,
        table.without_read(slot).timers == table.timers,
        table.with_write(slot, writer).read == table.read,
        table.with_write(slot, writer).timers == table.timers,
        table.without_write(slot).read == table.read,
        table.without_write(slot).timers == table.timers,
        table.with_timer(slot, timer).read == table.read,
        table.with_timer(slot, timer).write == table.write,
        table.without_timer(slot).read == table.read,
        table.without_timer(slot).write == table.write,
{
}

} // verus!
