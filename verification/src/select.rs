//! The event loop over `select`.
use std::time::Duration;
use vstd::prelude::*;
use crate::callbacks::{Callbacks, CallbacksView, ReadEventType};
use crate::event::EventControl;
use crate::fd_set::{FdSet, FD_SETSIZE};
#[allow(unused_imports)]
use crate::callbacks::empty_slots;

verus! {

/// The number of bytes that are taken from the pipe at most when the loop was woken up.
pub const MAX_DRAINED: usize = 10;

/// What an event loop waits for. The callbacks lie in a table of their own, which the clones of a
/// loop share.
pub struct Select {
    /// The descriptors that are waited for until they can be read.
    pub read_fds: FdSet,
    /// The descriptors that are waited for until they can be written.
    pub write_fds: FdSet,
    /// The pipe that wakes the loop up: the end to read from and the end to write to.
    pub notify_pipe_fds: [i32; 2],
    pub next_timer: usize,
}

/// The state of a [`Select`] together with its table of callbacks.
#[verifier::ext_equal]
pub struct SelectView<A, R, W, T> {
    pub callbacks: CallbacksView<A, R, W, T>,
    pub read_fds: Set<int>,
    pub write_fds: Set<int>,
    pub pipe: Seq<i32>,
    pub next_timer: int,
}

impl Select {
    /// The state of the loop over a table of callbacks.
    pub open spec fn over<A, R, W, T>(self, callbacks: CallbacksView<A, R, W, T>) -> SelectView<
        A,
        R,
        W,
        T,
    > {
        SelectView {
            callbacks,
            read_fds: self.read_fds@,
            write_fds: self.write_fds@,
            pipe: self.notify_pipe_fds@,
            next_timer: self.next_timer as int,
        }
    }
}

impl Clone for Select {
    /// A loop that waits for the same descriptors from now on, to be used with the same table.
    fn clone(&self) -> (copy: Select)
        ensures
            copy == *self,
    {
        Select {
            read_fds: self.read_fds,
            write_fds: self.write_fds,
            notify_pipe_fds: self.notify_pipe_fds,
            next_timer: self.next_timer,
        }
    }
}

/// What a ready descriptor calls for.
#[allow(inconsistent_fields)]
pub enum Ready<'a, A, R, W> {
    /// The loop was woken up: bytes are to be taken from the pipe, as many as it holds but no more
    /// than `most`.
    Drain { fd: i32, most: usize },
    Accept { fd: i32, callback: &'a A },
    Read { fd: i32, callback: &'a R },
    Write { fd: i32, callback: &'a W },
}

/// A walk over the descriptors in ascending order, of which those from `next` on are still to be
/// looked at.
pub struct Round {
    pub next: usize,
}

/// The member of a descriptor set that stands for descriptor `fd`.
pub open spec fn member(fd: usize) -> int {
    (fd as i32) as int
}

impl<A, R, W, T> SelectView<A, R, W, T> {
    /// A loop for descriptors below `num_fds` that waits for nothing but the pipe.
    pub open spec fn fresh(num_fds: nat, pipe: Seq<i32>) -> Self {
        SelectView {
            callbacks: CallbacksView {
                read: empty_slots::<ReadEventType<A, R>>(num_fds),
                write: empty_slots::<W>(num_fds),
                timers: empty_slots::<T>(num_fds),
            },
            read_fds: set![pipe[0] as int],
            write_fds: Set::<int>::empty(),
            pipe,
            next_timer: 0,
        }
    }

    /// The loop with a callback registered on readable descriptor `fd`.
    pub open spec fn reading(self, fd: usize, callback: ReadEventType<A, R>) -> Self {
        SelectView {
            callbacks: self.callbacks.with_read(fd as int, callback),
            read_fds: self.read_fds.insert(member(fd)),
            ..self
        }
    }

    /// The loop with a callback registered on writable descriptor `fd`.
    pub open spec fn writing(self, fd: usize, callback: W) -> Self {
        SelectView {
            callbacks: self.callbacks.with_write(fd as int, callback),
            write_fds: self.write_fds.insert(member(fd)),
            ..self
        }
    }

    /// The loop once `select` has left these two sets behind.
    pub open spec fn reported(self, readable: Set<int>, writable: Set<int>) -> Self {
        SelectView { read_fds: readable, write_fds: writable, ..self }
    }

    /// Whether the loop is waiting for nothing but the pipe and descriptors with a callback.
    pub open spec fn wf(self) -> bool {
        &&& self.pipe.len() == 2
        &&& forall|fd: int| #[trigger]
            self.read_fds.contains(fd) ==> 0 <= fd < FD_SETSIZE && (fd == self.pipe[0] || (fd
                < self.callbacks.read.len() && self.callbacks.read[fd] is Some))
        &&& forall|fd: int| #[trigger]
            self.write_fds.contains(fd) ==> 0 <= fd < FD_SETSIZE && fd < self.callbacks.write.len()
                && self.callbacks.write[fd] is Some
    }

    /// Whether the table has a slot for descriptor `fd`, should it be ready.
    pub open spec fn covers(self, fd: int) -> bool {
        if self.read_fds.contains(fd) {
            fd == self.pipe[0] || fd < self.callbacks.read.len()
        } else {
            self.write_fds.contains(fd) ==> fd < self.callbacks.write.len()
        }
    }

    /// Whether the table has a slot for each descriptor from `next` on, should it be ready, up to
    /// the first one that calls for something, and for that one.
    pub open spec fn covers_next(self, next: int) -> bool {
        forall|fd: int|
            next <= fd < FD_SETSIZE && (forall|before: int|
                next <= before < fd ==> #[trigger] self.due(before) is None)
                ==> #[trigger] self.covers(fd)
    }

    /// What descriptor `fd` calls for, with reading before writing.
    pub open spec fn due<'a>(self, fd: int) -> Option<Ready<'a, A, R, W>> {
        if self.read_fds.contains(fd) {
            if fd == self.pipe[0] {
                Some(Ready::Drain { fd: fd as i32, most: MAX_DRAINED })
            } else {
                match self.callbacks.read[fd] {
                    Some(ReadEventType::ACCEPT(callback)) => Some(
                        Ready::Accept { fd: fd as i32, callback: &callback },
                    ),
                    Some(ReadEventType::READ(callback)) => Some(
                        Ready::Read { fd: fd as i32, callback: &callback },
                    ),
                    None => None,
                }
            }
        } else if self.write_fds.contains(fd) {
            match self.callbacks.write[fd] {
                Some(callback) => Some(Ready::Write { fd: fd as i32, callback: &callback }),
                None => None,
            }
        } else {
            None
        }
    }

    /// The state once the callback on descriptor `fd` has given its verdict.
    pub open spec fn answered(self, fd: int, control: EventControl) -> Self {
        match control {
            EventControl::KEEP => self,
            EventControl::DELETE => if self.read_fds.contains(fd) {
                SelectView {
                    read_fds: self.read_fds.remove(fd),
                    callbacks: self.callbacks.without_read(fd),
                    ..self
                }
            } else {
                SelectView {
                    write_fds: self.write_fds.remove(fd),
                    callbacks: self.callbacks.without_write(fd),
                    ..self
                }
            },
        }
    }
}

/// The descriptor to close once the callback on descriptor `fd` has given its verdict.
pub open spec fn close_of(fd: int, control: EventControl) -> Option<i32> {
    match control {
        EventControl::KEEP => None,
        EventControl::DELETE => Some(fd as i32),
    }
}

impl<A, R, W, T> SelectView<A, R, W, T> {
    proof fn lemma_registration_keeps_wf(
        self,
        fd: usize,
        callback: Option<ReadEventType<A, R>>,
        writer: Option<W>,
    )
        requires
            self.wf(),
            fd < FD_SETSIZE,
        ensures
            callback is Some && fd < self.callbacks.read.len() ==> self.reading(
                fd,
                callback->0,
            ).wf(),
            writer is Some && fd < self.callbacks.write.len() ==> self.writing(
                fd,
                writer->0,
            ).wf(),
    {
    }

    proof fn lemma_answer_keeps_wf(self, fd: int, control: EventControl)
        requires
            self.wf(),
            0 <= fd < FD_SETSIZE,
            self.covers(fd),
            self.due(fd) is Some,
            !(self.due(fd)->0 is Drain),
        ensures
            self.answered(fd, control).wf(),
    {
    }
}

impl Select {
    /// A loop for descriptors below `num_fds` that waits for nothing but the pipe, and its table.
    pub fn new<A, R, W, T>(num_fds: usize, pipe_fds: [i32; 2]) -> (made: (
        Self,
        Callbacks<A, R, W, T>,
    ))
        requires
            0 <= pipe_fds[0] < FD_SETSIZE,
        ensures
            made.0.over(made.1@).wf(),
            made.0.over(made.1@) == SelectView::<A, R, W, T>::fresh(num_fds as nat, pipe_fds@),
    {
        let mut read_fds = FdSet::new();
        read_fds.insert(pipe_fds[0] as usize);
        let select = Select {
            read_fds,
            write_fds: FdSet::new(),
            notify_pipe_fds: pipe_fds,
            next_timer: 0,
        };
        let callbacks = Callbacks::new(num_fds, num_fds);
        assert(select.read_fds@ =~= set![pipe_fds[0] as int]);
        (select, callbacks)
    }

    /// Registers a callback on a readable descriptor and waits for that descriptor.
    pub fn add_read_event<A, R, W, T>(
        &mut self,
        callbacks: &mut Callbacks<A, R, W, T>,
        fd: usize,
        callback: ReadEventType<A, R>,
    )
        requires
            fd < old(callbacks)@.read.len(),
            0 <= member(fd) < FD_SETSIZE,
        ensures
            final(self).over(final(callbacks)@) == old(self).over(old(callbacks)@).reading(
                fd,
                callback,
            ),
            old(self).over(old(callbacks)@).wf() && fd < FD_SETSIZE ==> final(self).over(
                final(callbacks)@,
            ).wf(),
    {
        callbacks.readevents[fd] = Some(callback);
        #[verifier::truncate]
        let bit: i32 = fd as i32;
        self.read_fds.insert(bit as usize);
        proof {
            let before = old(self).over(old(callbacks)@);
            assert(self.over(callbacks@) =~= before.reading(fd, callback));
            if before.wf() && fd < FD_SETSIZE {
                before.lemma_registration_keeps_wf(fd, Some(callback), None);
            }
        }
    }

    /// Registers a callback on a writable descriptor and waits for that descriptor.
    pub fn add_write_event<A, R, W, T>(
        &mut self,
        callbacks: &mut Callbacks<A, R, W, T>,
        fd: usize,
        callback: W,
    )
        requires
            fd < old(callbacks)@.write.len(),
            0 <= member(fd) < FD_SETSIZE,
        ensures
            final(self).over(final(callbacks)@) == old(self).over(old(callbacks)@).writing(
                fd,
                callback,
            ),
            old(self).over(old(callbacks)@).wf() && fd < FD_SETSIZE ==> final(self).over(
                final(callbacks)@,
            ).wf(),
    {
        callbacks.writeevents[fd] = Some(callback);
        #[verifier::truncate]
        let bit: i32 = fd as i32;
        self.write_fds.insert(bit as usize);
        proof {
            let before = old(self).over(old(callbacks)@);
            assert(self.over(callbacks@) =~= before.writing(fd, callback));
            if before.wf() && fd < FD_SETSIZE {
                before.lemma_registration_keeps_wf(fd, None, Some(callback));
            }
        }
    }

    /// Timers are not served by this loop: the callback is dropped.
    pub fn add_timer<A, R, W, T>(
        &mut self,
        callbacks: &mut Callbacks<A, R, W, T>,
        _callback: T,
        _delay: Duration,
    )
        ensures
            *final(self) == *old(self),
            *final(callbacks) == *old(callbacks),
    {
    }

    /// The descriptor and the byte to write to it so that the loop wakes up.
    pub fn notify(&self) -> (wake: (i32, u8))
        ensures
            wake == (self.notify_pipe_fds@[1], 0u8),
    {
        (self.notify_pipe_fds[1], 0)
    }

    /// Whether the table has a slot for descriptor `fd`, should it be ready.
    pub fn covers<A, R, W, T>(&self, callbacks: &Callbacks<A, R, W, T>, fd: usize) -> (covered:
        bool)
        requires
            fd < FD_SETSIZE,
        ensures
            covered == self.over(callbacks@).covers(fd as int),
    {
        if self.read_fds.contains(fd) {
            fd as i32 == self.notify_pipe_fds[0] || fd < callbacks.readevents.len()
        } else {
            !self.write_fds.contains(fd) || fd < callbacks.writeevents.len()
        }
    }

    /// What descriptor `fd` calls for, with reading before writing.
    fn due<'a, A, R, W, T>(&self, callbacks: &'a Callbacks<A, R, W, T>, fd: usize) -> (ready:
        Option<Ready<'a, A, R, W>>)
        requires
            fd < FD_SETSIZE,
            self.over(callbacks@).covers(fd as int),
        ensures
            ready == self.over(callbacks@).due(fd as int),
    {
        let slot = fd;
        let fd: i32 = slot as i32;
        if self.read_fds.contains(slot) {
            if fd == self.notify_pipe_fds[0] {
                return Some(Ready::Drain { fd, most: MAX_DRAINED });
            }
            match &callbacks.readevents[slot] {
                Some(ReadEventType::ACCEPT(callback)) => Some(Ready::Accept { fd, callback }),
                Some(ReadEventType::READ(callback)) => Some(Ready::Read { fd, callback }),
                None => None,
            }
        } else if self.write_fds.contains(slot) {
            match &callbacks.writeevents[slot] {
                Some(callback) => Some(Ready::Write { fd, callback }),
                None => None,
            }
        } else {
            None
        }
    }

    /// Whether the table has a slot for each descriptor that is still to be looked at, should it be
    /// ready, up to the next one that calls for something, and for that one.
    pub fn covers_next<A, R, W, T>(&self, callbacks: &Callbacks<A, R, W, T>, round: &Round) -> (
    covered: bool)
        ensures
            covered == self.over(callbacks@).covers_next(round.next as int),
    {
        let mut fd: usize = round.next;
        let ghost state = self.over(callbacks@);
        while fd < FD_SETSIZE
            invariant
                state == self.over(callbacks@),
                round.next <= fd,
                forall|before: int|
                    round.next <= before < fd ==> #[trigger] state.due(before) is None,
                forall|before: int|
                    round.next <= before < fd ==> #[trigger] state.covers(before),
            decreases FD_SETSIZE - fd,
        {
            if !self.covers(callbacks, fd) {
                assert(!state.covers(fd as int));
                return false;
            }
            if self.due(callbacks, fd).is_some() {
                assert(state.due(fd as int) is Some);
                return true;
            }
            fd = fd + 1;
        }
        true
    }

    /// Takes up what `select` has reported: its result and the two sets as it left them. From now
    /// on the loop waits for the descriptors in those sets. The walk is over at once where `select`
    /// failed or nothing was ready.
    pub fn handle_events(&mut self, nev: i32, readable: FdSet, writable: FdSet) -> (round: Round)
        ensures
            *final(self) == (Select { read_fds: readable, write_fds: writable, ..*old(self) }),
            round.next == (if nev == -1 || nev == 0 { FD_SETSIZE } else { 0 }),
    {
        self.read_fds = readable;
        self.write_fds = writable;
        if nev == -1 || nev == 0 {
            Round { next: FD_SETSIZE }
        } else {
            Round { next: 0 }
        }
    }

    /// Moves on to the next descriptor that calls for something, and says what for. Without one
    /// the walk is over.
    pub fn next_ready<'a, A, R, W, T>(
        &self,
        callbacks: &'a Callbacks<A, R, W, T>,
        round: &mut Round,
    ) -> (ready: Option<Ready<'a, A, R, W>>)
        requires
            old(round).next <= FD_SETSIZE,
            self.over(callbacks@).covers_next(old(round).next as int),
        ensures
            old(round).next <= final(round).next <= FD_SETSIZE,
            forall|fd: int|
                old(round).next <= fd < final(round).next ==> #[trigger] self.over(
                    callbacks@,
                ).due(fd) is None,
            ready == (if final(round).next < FD_SETSIZE {
                self.over(callbacks@).due(final(round).next as int)
            } else {
                None
            }),
            ready is Some <==> final(round).next < FD_SETSIZE,
    {
        let ghost state = self.over(callbacks@);
        while round.next < FD_SETSIZE
            invariant
                state == self.over(callbacks@),
                old(round).next <= round.next <= FD_SETSIZE,
                state.covers_next(old(round).next as int),
                forall|fd: int|
                    old(round).next <= fd < round.next ==> #[trigger] state.due(fd) is None,
            decreases FD_SETSIZE - round.next,
        {
            assert(state.covers(round.next as int));
            let ready = self.due(callbacks, round.next);
            if ready.is_some() {
                return ready;
            }
            assert(state.due(round.next as int) is None);
            round.next = round.next + 1;
        }
        None
    }

    /// Moves past the pipe once bytes have been taken from it. The loop goes on waiting for it.
    pub fn drained(&self, round: &mut Round)
        requires
            old(round).next < FD_SETSIZE,
            self.read_fds@.contains(old(round).next as int),
            old(round).next == self.notify_pipe_fds@[0],
        ensures
            final(round).next == old(round).next + 1,
    {
        round.next = round.next + 1;
    }

    /// Takes the verdict of the callback that the walk stands at, and moves past its descriptor.
    /// The descriptor that comes back is to be closed.
    pub fn answer<A, R, W, T>(
        &mut self,
        callbacks: &mut Callbacks<A, R, W, T>,
        round: &mut Round,
        control: EventControl,
    ) -> (close: Option<i32>)
        requires
            old(round).next < FD_SETSIZE,
            old(self).over(old(callbacks)@).covers(old(round).next as int),
            old(self).over(old(callbacks)@).due(old(round).next as int) is Some,
            !(old(self).over(old(callbacks)@).due(old(round).next as int)->0 is Drain),
        ensures
            final(round).next == old(round).next + 1,
            final(self).over(final(callbacks)@) == old(self).over(old(callbacks)@).answered(
                old(round).next as int,
                control,
            ),
            old(self).over(old(callbacks)@).wf() ==> final(self).over(final(callbacks)@).wf(),
            close == close_of(old(round).next as int, control),
    {
        let slot = round.next;
        round.next = round.next + 1;
        match control {
            EventControl::KEEP => None,
            EventControl::DELETE => {
                if self.read_fds.contains(slot) {
                    self.read_fds.remove(slot);
                    callbacks.readevents[slot] = None;
                } else {
                    self.write_fds.remove(slot);
                    callbacks.writeevents[slot] = None;
                }
                proof {
                    let before = old(self).over(old(callbacks)@);
                    assert(self.over(callbacks@) =~= before.answered(slot as int, control));
                    if before.wf() {
                        before.lemma_answer_keeps_wf(slot as int, control);
                    }
                }
                Some(slot as i32)
            },
        }
    }
}

/// A new loop runs no callback: only the pipe can be ready.
pub proof fn law_fresh_loop_is_silent<A, R, W, T>(num_fds: nat, pipe: Seq<i32>, fd: int)
    ensures
        SelectView::<A, R, W, T>::fresh(num_fds, pipe).due(fd) == if fd == pipe[0] {
            Some::<Ready<'_, A, R, W>>(Ready::Drain { fd: fd as i32, most: MAX_DRAINED })
        } else {
            None
        },
{
}

/// A descriptor that is waited for always has something to run, and a slot in the table.
pub proof fn law_nothing_is_waited_for_in_vain<A, R, W, T>(select: SelectView<A, R, W, T>, fd: int)
    requires
        select.wf(),
    ensures
        select.covers(fd),
        select.due(fd) is Some <==> select.read_fds.contains(fd) || select.write_fds.contains(fd),
{
}

/// A callback registered on a descriptor is the one that runs when that descriptor is ready. One
/// that writes runs only where the descriptor is not ready for reading as well.
pub proof fn law_registered_callback_runs<A, R, W, T>(
    select: SelectView<A, R, W, T>,
    fd: usize,
    callback: ReadEventType<A, R>,
    writer: W,
)
    requires
        fd < FD_SETSIZE,
        fd < select.callbacks.read.len(),
        fd < select.callbacks.write.len(),
        fd != select.pipe[0],
    ensures
        match callback {
            ReadEventType::ACCEPT(accept) => select.reading(fd, callback).due(fd as int) == Some::<
                Ready<'_, A, R, W>,
            >(Ready::Accept { fd: fd as i32, callback: &accept }),
            ReadEventType::READ(read) => select.reading(fd, callback).due(fd as int) == Some::<
                Ready<'_, A, R, W>,
            >(Ready::Read { fd: fd as i32, callback: &read }),
        },
        !select.read_fds.contains(fd as int) ==> select.writing(fd, writer).due(fd as int)
            == Some::<Ready<'_, A, R, W>>(Ready::Write { fd: fd as i32, callback: &writer }),
        select.read_fds.contains(fd as int) ==> select.writing(fd, writer).due(fd as int)
            == select.due(fd as int),
{
}

/// A registration on one descriptor changes nothing for any other.
pub proof fn law_registration_is_local<A, R, W, T>(
    select: SelectView<A, R, W, T>,
    fd: usize,
    callback: ReadEventType<A, R>,
    writer: W,
    other: int,
)
    requires
        fd < FD_SETSIZE,
        fd < select.callbacks.read.len(),
        fd < select.callbacks.write.len(),
        0 <= other < FD_SETSIZE,
        select.covers(other),
        other != fd,
    ensures
        select.reading(fd, callback).due(other) == select.due(other),
        select.writing(fd, writer).due(other) == select.due(other),
{
}

/// A callback that asks to be kept stays as it is, and so does the wait for its descriptor.
pub proof fn law_kept_callback_stays<A, R, W, T>(select: SelectView<A, R, W, T>, fd: int)
    ensures
        select.answered(fd, EventControl::KEEP) == select,
{
}

/// A callback that asks to be deleted leaves the table together with the wait for its descriptor.
/// Only a callback that writes to the descriptor can still run on it afterwards. What runs on
/// every other descriptor stays as it is.
pub proof fn law_deleted_callback_is_gone<A, R, W, T>(
    select: SelectView<A, R, W, T>,
    fd: int,
    other: int,
)
    requires
        0 <= fd < FD_SETSIZE,
        select.covers(fd),
        select.due(fd) is Some,
        !(select.due(fd)->0 is Drain),
        select.covers(other),
        0 <= other < FD_SETSIZE,
        other != fd,
    ensures
        select.read_fds.contains(fd) ==> {
            let after = select.answered(fd, EventControl::DELETE);
            &&& !after.read_fds.contains(fd)
            &&& after.callbacks.read[fd] is None
            &&& after.due(fd) is Some ==> after.due(fd)->0 is Write
        },
        !select.read_fds.contains(fd) ==> {
            let after = select.answered(fd, EventControl::DELETE);
            &&& !after.write_fds.contains(fd)
            &&& after.callbacks.write[fd] is None
            &&& after.due(fd) is None
        },
        select.answered(fd, EventControl::DELETE).due(other) == select.due(other),
{
}

/// Over a wait every callback stays in the table. It runs again when `select` reports its
/// descriptor as ready for what it was waited for.
pub proof fn law_reported_descriptor_runs_again<A, R, W, T>(
    select: SelectView<A, R, W, T>,
    readable: Set<int>,
    writable: Set<int>,
    fd: int,
)
    ensures
        select.reported(readable, writable).callbacks == select.callbacks,
        select.read_fds.contains(fd) && readable.contains(fd) ==> select.reported(
            readable,
            writable,
        ).due(fd) == select.due(fd),
        !select.read_fds.contains(fd) && select.write_fds.contains(fd) && !readable.contains(fd)
            && writable.contains(fd) ==> select.reported(readable, writable).due(fd) == select.due(
            fd,
        ),
{
}

/// The state of a loop that has taken up what `select` left behind is the one with these two sets.
/// As long as they hold nothing that was not waited for, nothing is waited for in vain.
pub proof fn law_report_keeps_the_loop_well_formed<A, R, W, T>(
    select: Select,
    callbacks: CallbacksView<A, R, W, T>,
    readable: FdSet,
    writable: FdSet,
)
    ensures
        (Select { read_fds: readable, write_fds: writable, ..select }).over(callbacks)
            == select.over(callbacks).reported(readable@, writable@),
        select.over(callbacks).wf() && readable@.subset_of(select.over(callbacks).read_fds)
            && writable@.subset_of(select.over(callbacks).write_fds) ==> select.over(
            callbacks,
        ).reported(readable@, writable@).wf(),
{
}

/// A callback that is registered through one loop is in the table that its clones use, but only
/// that loop waits for the descriptor.
pub proof fn law_clones_share_the_table_only<A, R, W, T>(
    select: Select,
    copy: Select,
    callbacks: CallbacksView<A, R, W, T>,
    fd: usize,
    callback: ReadEventType<A, R>,
)
    requires
        copy == select,
        fd < callbacks.read.len(),
    ensures
        copy.over(callbacks) == select.over(callbacks),
        ({
            let shared = select.over(callbacks).reading(fd, callback).callbacks;
            &&& copy.over(shared).callbacks.read[fd as int] == Some(callback)
            &&& copy.over(shared).read_fds == select.over(callbacks).read_fds
            &&& copy.over(shared).write_fds == select.over(callbacks).write_fds
        }),
{
}

/// The state of a loop when the descriptors below `end` have been looked at, where the callback on
/// descriptor `fd`, if one runs, gives verdict `verdicts[fd]`.
pub open spec fn round_state<A, R, W, T>(
    select: SelectView<A, R, W, T>,
    verdicts: Seq<EventControl>,
    end: nat,
) -> SelectView<A, R, W, T>
    decreases end,
{
    if end == 0 {
        select
    } else {
        let last = end - 1;
        let before = round_state(select, verdicts, last as nat);
        match before.due(last) {
            None => before,
            Some(Ready::Drain { .. }) => before,
            _ => before.answered(last, verdicts[last]),
        }
    }
}

/// The descriptors below `end` that call for something at their turn, in the order of the walk.
pub open spec fn round_runs<A, R, W, T>(
    select: SelectView<A, R, W, T>,
    verdicts: Seq<EventControl>,
    end: nat,
) -> Seq<int>
    decreases end,
{
    if end == 0 {
        Seq::empty()
    } else {
        let last = end - 1;
        let before = round_runs(select, verdicts, last as nat);
        if round_state(select, verdicts, last as nat).due(last) is Some {
            before.push(last)
        } else {
            before
        }
    }
}

/// The descriptors below `end` that a walk has closed, in the order of the walk.
pub open spec fn round_closes<A, R, W, T>(
    select: SelectView<A, R, W, T>,
    verdicts: Seq<EventControl>,
    end: nat,
) -> Seq<i32>
    decreases end,
{
    if end == 0 {
        Seq::empty()
    } else {
        let last = end - 1;
        let before = round_closes(select, verdicts, last as nat);
        match round_state(select, verdicts, last as nat).due(last) {
            None => before,
            Some(Ready::Drain { .. }) => before,
            _ => match close_of(last, verdicts[last]) {
                Some(fd) => before.push(fd),
                None => before,
            },
        }
    }
}

/// Looking for the next descriptor and answering for it is how a walk goes on: descriptors that
/// call for nothing change nothing, and the answer for the next one gives the state behind it and
/// what is closed.
pub proof fn law_round_goes_on<A, R, W, T>(
    select: SelectView<A, R, W, T>,
    verdicts: Seq<EventControl>,
    from: nat,
    to: nat,
)
    requires
        from <= to,
        forall|fd: int|
            from <= fd < to ==> #[trigger] round_state(select, verdicts, from).due(fd) is None,
    ensures
        round_state(select, verdicts, to) == round_state(select, verdicts, from),
        round_runs(select, verdicts, to) == round_runs(select, verdicts, from),
        round_closes(select, verdicts, to) == round_closes(select, verdicts, from),
        round_state(select, verdicts, to).due(to as int) is Some ==> {
            &&& round_state(select, verdicts, to + 1) == (if round_state(
                select,
                verdicts,
                to,
            ).due(to as int)->0 is Drain {
                round_state(select, verdicts, to)
            } else {
                round_state(select, verdicts, to).answered(to as int, verdicts[to as int])
            })
            &&& round_runs(select, verdicts, to + 1) == round_runs(select, verdicts, to).push(
                to as int,
            )
            &&& round_closes(select, verdicts, to + 1) == (if round_state(
                select,
                verdicts,
                to,
            ).due(to as int)->0 is Drain {
                round_closes(select, verdicts, to)
            } else {
                match close_of(to as int, verdicts[to as int]) {
                    Some(fd) => round_closes(select, verdicts, to).push(fd),
                    None => round_closes(select, verdicts, to),
                }
            })
        },
    decreases to - from,
{
    if from < to {
        law_round_goes_on(select, verdicts, from, (to - 1) as nat);
        assert(round_state(select, verdicts, from).due(to - 1) is None);
    }
}

/// A verdict on one descriptor does not change what any other descriptor calls for, so the
/// descriptors that call for something during a walk are those that did when it began.
pub proof fn law_round_verdicts_are_local<A, R, W, T>(
    select: SelectView<A, R, W, T>,
    verdicts: Seq<EventControl>,
    end: nat,
    fd: int,
)
    requires
        end <= fd < FD_SETSIZE,
        forall|i: int| 0 <= i < FD_SETSIZE ==> #[trigger] select.covers(i),
    ensures
        round_state(select, verdicts, end).due(fd) == select.due(fd),
        round_state(select, verdicts, end).covers(fd),
    decreases end,
{
    if end > 0 {
        law_round_verdicts_are_local(select, verdicts, (end - 1) as nat, fd);
        law_round_verdicts_are_local(select, verdicts, (end - 1) as nat, end - 1);
    }
}

/// A walk goes over the descriptors in ascending order, and each of them gets at most one turn:
/// just those that called for something when the walk began.
pub proof fn law_round_runs_in_ascending_order<A, R, W, T>(
    select: SelectView<A, R, W, T>,
    verdicts: Seq<EventControl>,
    end: nat,
)
    requires
        end <= FD_SETSIZE,
        forall|fd: int| 0 <= fd < FD_SETSIZE ==> #[trigger] select.covers(fd),
    ensures
        forall|a: int, b: int|
            0 <= a < b < round_runs(select, verdicts, end).len() ==> #[trigger] round_runs(
                select,
                verdicts,
                end,
            )[a] < #[trigger] round_runs(select, verdicts, end)[b],
        forall|fd: int| #[trigger]
            round_runs(select, verdicts, end).contains(fd) <==> 0 <= fd < end && select.due(
                fd,
            ) is Some,
    decreases end,
{
    if end > 0 {
        let last = end - 1;
        let before = round_runs(select, verdicts, last as nat);
        let runs = round_runs(select, verdicts, end);
        law_round_runs_in_ascending_order(select, verdicts, last as nat);
        law_round_verdicts_are_local(select, verdicts, last as nat, last);
        assert forall|a: int| 0 <= a < before.len() implies #[trigger] before[a] < last by {
            assert(before.contains(before[a]));
        }
        assert forall|fd: int| #[trigger] runs.contains(fd) <==> 0 <= fd < end && select.due(
            fd,
        ) is Some by {
            if select.due(last) is Some {
                if before.contains(fd) {
                    let at = before.index_of(fd);
                    assert(runs[at] == fd);
                }
                if fd == last {
                    assert(runs[before.len() as int] == fd);
                }
                if runs.contains(fd) {
                    let at = runs.index_of(fd);
                    if at < before.len() {
                        assert(before[at] == fd);
                    }
                }
            } else {
                assert(before.contains(fd) <==> runs.contains(fd));
            }
        }
    }
}

/// Where only the pipe is ready, a walk takes bytes from it, [`MAX_DRAINED`] of them at most, and
/// does nothing else: no callback runs, not even one in the slot of the pipe, nothing is closed,
/// and the table and what is waited for stay as they are.
pub proof fn law_wake_up_runs_no_callback<A, R, W, T>(
    select: SelectView<A, R, W, T>,
    verdicts: Seq<EventControl>,
    end: nat,
)
    requires
        select.read_fds == set![select.pipe[0] as int],
        select.write_fds == Set::<int>::empty(),
        0 <= select.pipe[0],
    ensures
        select.due(select.pipe[0] as int) == Some::<Ready<'_, A, R, W>>(
            Ready::Drain { fd: select.pipe[0], most: MAX_DRAINED },
        ),
        round_state(select, verdicts, end) == select,
        round_runs(select, verdicts, end) == (if select.pipe[0] < end {
            seq![select.pipe[0] as int]
        } else {
            Seq::empty()
        }),
        round_closes(select, verdicts, end) == Seq::<i32>::empty(),
    decreases end,
{
    if end > 0 {
        law_wake_up_runs_no_callback(select, verdicts, (end - 1) as nat);
    }
}

/// Whether a walk that has looked at the descriptors below `end` has run a callback on descriptor
/// `fd` that asked to be deleted.
pub open spec fn deleted_in_round<A, R, W, T>(
    select: SelectView<A, R, W, T>,
    verdicts: Seq<EventControl>,
    end: nat,
    fd: int,
) -> bool {
    &&& 0 <= fd < end
    &&& select.due(fd) is Some
    &&& !(select.due(fd)->0 is Drain)
    &&& verdicts[fd] == EventControl::DELETE
}

/// A walk changes nothing but what concerns the descriptors whose callback ran and asked to be
/// deleted: the slot of that callback is empty afterwards and the wait for it is over.
pub proof fn law_round_changes_only_deleted_slots<A, R, W, T>(
    select: SelectView<A, R, W, T>,
    verdicts: Seq<EventControl>,
    end: nat,
)
    requires
        end <= FD_SETSIZE,
        forall|fd: int| 0 <= fd < FD_SETSIZE ==> #[trigger] select.covers(fd),
    ensures
        ({
            let after = round_state(select, verdicts, end);
            &&& after.pipe == select.pipe
            &&& after.next_timer == select.next_timer
            &&& after.callbacks.timers == select.callbacks.timers
            &&& after.callbacks.read.len() == select.callbacks.read.len()
            &&& after.callbacks.write.len() == select.callbacks.write.len()
            &&& forall|fd: int|
                0 <= fd < select.callbacks.read.len() ==> #[trigger] after.callbacks.read[fd]
                    == if deleted_in_round(select, verdicts, end, fd) && select.read_fds.contains(
                    fd,
                ) {
                    None
                } else {
                    select.callbacks.read[fd]
                }
            &&& forall|fd: int|
                0 <= fd < select.callbacks.write.len() ==> #[trigger] after.callbacks.write[fd]
                    == if deleted_in_round(select, verdicts, end, fd)
                    && !select.read_fds.contains(fd) {
                    None
                } else {
                    select.callbacks.write[fd]
                }
            &&& forall|fd: int| #[trigger]
                after.read_fds.contains(fd) <==> select.read_fds.contains(fd)
                    && !deleted_in_round(select, verdicts, end, fd)
            &&& forall|fd: int| #[trigger]
                after.write_fds.contains(fd) <==> select.write_fds.contains(fd) && !(
                deleted_in_round(select, verdicts, end, fd) && !select.read_fds.contains(fd))
        }),
    decreases end,
{
    if end > 0 {
        let last = end - 1;
        law_round_changes_only_deleted_slots(select, verdicts, last as nat);
        law_round_verdicts_are_local(select, verdicts, last as nat, last);
        assert(select.covers(last));
    }
}

/// A walk closes a descriptor if, and only if, the callback on that descriptor has run and asked to
/// be deleted. No descriptor is closed twice: they are closed in ascending order.
pub proof fn law_round_closes_what_is_deleted<A, R, W, T>(
    select: SelectView<A, R, W, T>,
    verdicts: Seq<EventControl>,
    end: nat,
)
    requires
        end <= FD_SETSIZE,
        forall|fd: int| 0 <= fd < FD_SETSIZE ==> #[trigger] select.covers(fd),
    ensures
        forall|fd: i32| #[trigger]
            round_closes(select, verdicts, end).contains(fd) <==> deleted_in_round(
                select,
                verdicts,
                end,
                fd as int,
            ),
        forall|a: int, b: int|
            0 <= a < b < round_closes(select, verdicts, end).len() ==> #[trigger] round_closes(
                select,
                verdicts,
                end,
            )[a] < #[trigger] round_closes(select, verdicts, end)[b],
    decreases end,
{
    if end > 0 {
        let last = end - 1;
        let before = round_closes(select, verdicts, last as nat);
        let closes = round_closes(select, verdicts, end);
        law_round_closes_what_is_deleted(select, verdicts, last as nat);
        law_round_verdicts_are_local(select, verdicts, last as nat, last);
        assert forall|a: int| 0 <= a < before.len() implies #[trigger] before[a] < last by {
            assert(before.contains(before[a]));
        }
        let deleted = deleted_in_round(select, verdicts, end, last);
        assert(closes == if deleted {
            before.push(last as i32)
        } else {
            before
        });
        assert forall|fd: i32| #[trigger] closes.contains(fd) <==> deleted_in_round(
            select,
            verdicts,
            end,
            fd as int,
        ) by {
            assert(before.contains(fd) <==> deleted_in_round(
                select,
                verdicts,
                last as nat,
                fd as int,
            ));
            if deleted {
                if before.contains(fd) {
                    assert(closes[before.index_of(fd)] == fd);
                }
                if fd == last {
                    assert(closes[before.len() as int] == fd);
                }
                if closes.contains(fd) {
                    let at = closes.index_of(fd);
                    if at < before.len() {
                        assert(before[at] == fd);
                    }
                }
            }
        }
    }
}

/// The state of a loop is what its fields hold, with the table that it is used with.
pub proof fn law_state_is_in_the_fields<A, R, W, T>(
    select: Select,
    callbacks: CallbacksView<A, R, W, T>,
)
    ensures
        select.over(callbacks).callbacks == callbacks,
        select.over(callbacks).read_fds == select.read_fds@,
        select.over(callbacks).write_fds == select.write_fds@,
        select.over(callbacks).pipe == select.notify_pipe_fds@,
        select.over(callbacks).next_timer == select.next_timer,
{
}

/// A descriptor stands for itself in a set. Of a number that no descriptor has, the lower
/// thirty-two bits count.
pub proof fn law_member_is_the_descriptor(fd: usize)
    ensures
        fd <= i32::MAX ==> member(fd) == fd,
        i32::MIN <= member(fd) <= i32::MAX,
        (fd - member(fd)) % 0x1_0000_0000 == 0,
{
    let bit = fd as i32;
    assert((fd - bit) % 0x1_0000_0000 == 0) by (bit_vector)
        requires
            bit == fd as i32,
    ;
}

/// A new loop waits for the reading end of its pipe and for nothing else. Its table has a slot of
/// each kind for every descriptor below `num_fds`, all of them empty.
pub proof fn law_fresh_loop_waits_for_the_pipe<A, R, W, T>(num_fds: nat, pipe: Seq<i32>)
    ensures
        ({
            let select = SelectView::<A, R, W, T>::fresh(num_fds, pipe);
            &&& forall|fd: int| #[trigger] select.read_fds.contains(fd) <==> fd == pipe[0]
            &&& forall|fd: int| !(#[trigger] select.write_fds.contains(fd))
            &&& select.pipe == pipe
            &&& select.next_timer == 0
            &&& select.callbacks.read.len() == num_fds
            &&& select.callbacks.write.len() == num_fds
            &&& select.callbacks.timers.len() == num_fds
            &&& forall|i: int| 0 <= i < num_fds ==> #[trigger] select.callbacks.read[i] is None
            &&& forall|i: int| 0 <= i < num_fds ==> #[trigger] select.callbacks.write[i] is None
            &&& forall|i: int| 0 <= i < num_fds ==> #[trigger] select.callbacks.timers[i] is None
        }),
{
}

/// A registration for reading puts its callback into the read slot of its descriptor and has that
/// descriptor waited for. What concerns writing stays as it is, on the same descriptor too, and so
/// do all other descriptors. A registration for writing likewise leaves alone what concerns
/// reading.
pub proof fn law_registrations_keep_out_of_each_other<A, R, W, T>(
    select: SelectView<A, R, W, T>,
    fd: usize,
    callback: ReadEventType<A, R>,
    writer: W,
)
    requires
        fd <= i32::MAX,
    ensures
        fd < select.callbacks.read.len() ==> {
            let after = select.reading(fd, callback);
            &&& after.write_fds == select.write_fds
            &&& after.callbacks.write == select.callbacks.write
            &&& after.callbacks.timers == select.callbacks.timers
            &&& after.pipe == select.pipe
            &&& after.next_timer == select.next_timer
            &&& forall|other: int| #[trigger]
                after.read_fds.contains(other) <==> other == fd || select.read_fds.contains(other)
            &&& after.callbacks.read.len() == select.callbacks.read.len()
            &&& after.callbacks.read[fd as int] == Some(callback)
            &&& forall|i: int|
                0 <= i < select.callbacks.read.len() && i != fd
                    ==> #[trigger] after.callbacks.read[i] == select.callbacks.read[i]
        },
        fd < select.callbacks.write.len() ==> {
            let after = select.writing(fd, writer);
            &&& after.read_fds == select.read_fds
            &&& after.callbacks.read == select.callbacks.read
            &&& after.callbacks.timers == select.callbacks.timers
            &&& after.pipe == select.pipe
            &&& after.next_timer == select.next_timer
            &&& forall|other: int| #[trigger]
                after.write_fds.contains(other) <==> other == fd || select.write_fds.contains(other)
            &&& after.callbacks.write.len() == select.callbacks.write.len()
            &&& after.callbacks.write[fd as int] == Some(writer)
            &&& forall|i: int|
                0 <= i < select.callbacks.write.len() && i != fd
                    ==> #[trigger] after.callbacks.write[i] == select.callbacks.write[i]
        },
{
    law_member_is_the_descriptor(fd);
}

/// A descriptor that is ready for reading runs the callback in its read slot, unless it is the
/// pipe. One that is ready for writing alone runs the callback in its write slot. Where nothing is
/// ready or the slot is empty, nothing runs.
pub proof fn law_ready_descriptor_runs_what_its_slot_holds<A, R, W, T>(
    select: SelectView<A, R, W, T>,
    fd: i32,
)
    ensures
        select.read_fds.contains(fd as int) && fd == select.pipe[0] ==> select.due(fd as int)
            == Some::<Ready<'_, A, R, W>>(Ready::Drain { fd, most: MAX_DRAINED }),
        select.read_fds.contains(fd as int) && fd != select.pipe[0] ==> match select.callbacks.read[
            fd as int
        ] {
            Some(ReadEventType::ACCEPT(accept)) => select.due(fd as int) == Some::<
                Ready<'_, A, R, W>,
            >(Ready::Accept { fd, callback: &accept }),
            Some(ReadEventType::READ(read)) => select.due(fd as int) == Some::<
                Ready<'_, A, R, W>,
            >(Ready::Read { fd, callback: &read }),
            None => select.due(fd as int) is None,
        },
        !select.read_fds.contains(fd as int) && select.write_fds.contains(fd as int)
            ==> match select.callbacks.write[fd as int] {
            Some(writer) => select.due(fd as int) == Some::<Ready<'_, A, R, W>>(
                Ready::Write { fd, callback: &writer },
            ),
            None => select.due(fd as int) is None,
        },
        !select.read_fds.contains(fd as int) && !select.write_fds.contains(fd as int)
            ==> select.due(fd as int) is None,
{
}

/// The table has a slot for a ready descriptor just if the descriptor is below the number of slots
/// of the kind that it is ready for. The pipe needs none, and neither does one that is not ready.
pub proof fn law_covered_descriptors_are_in_range<A, R, W, T>(
    select: SelectView<A, R, W, T>,
    fd: int,
)
    ensures
        select.read_fds.contains(fd) && fd == select.pipe[0] ==> select.covers(fd),
        select.read_fds.contains(fd) && fd != select.pipe[0] ==> (select.covers(fd) <==> fd
            < select.callbacks.read.len()),
        !select.read_fds.contains(fd) && select.write_fds.contains(fd) ==> (select.covers(fd)
            <==> fd < select.callbacks.write.len()),
        !select.read_fds.contains(fd) && !select.write_fds.contains(fd) ==> select.covers(fd),
{
}

/// The walk can go on just if the table has a slot for the descriptor that it stands at and, where
/// that one calls for nothing, the walk can go on behind it.
pub proof fn law_walk_goes_descriptor_by_descriptor<A, R, W, T>(
    select: SelectView<A, R, W, T>,
    next: int,
)
    ensures
        select.covers_next(next) <==> next >= FD_SETSIZE || (select.covers(next) && (select.due(
            next,
        ) is Some || select.covers_next(next + 1))),
{
    if next < FD_SETSIZE {
        if select.covers_next(next) {
            assert(select.covers(next));
            if select.due(next) is None {
                assert forall|fd: int|
                    next + 1 <= fd < FD_SETSIZE && (forall|before: int|
                        next + 1 <= before < fd ==> #[trigger] select.due(before) is None)
                        implies #[trigger] select.covers(fd) by {
                    assert forall|before: int| next <= before < fd implies #[trigger] select.due(
                        before,
                    ) is None by {
                        if before > next {
                            assert(select.due(before) is None);
                        }
                    }
                }
            }
        }
        if select.covers(next) && (select.due(next) is Some || select.covers_next(next + 1)) {
            assert forall|fd: int|
                next <= fd < FD_SETSIZE && (forall|before: int|
                    next <= before < fd ==> #[trigger] select.due(before) is None)
                    implies #[trigger] select.covers(fd) by {
                if fd > next {
                    assert(select.due(next) is None);
                }
            }
        }
    }
}

/// A verdict changes nothing but the slot of the callback that asks to be deleted, which is empty
/// afterwards, and the wait for it, which is over. Where the descriptor is ready for reading that
/// is the callback that reads, and otherwise the one that writes.
pub proof fn law_verdict_ends_one_wait_at_most<A, R, W, T>(
    select: SelectView<A, R, W, T>,
    fd: int,
    control: EventControl,
)
    requires
        0 <= fd,
        select.read_fds.contains(fd) ==> fd < select.callbacks.read.len(),
        !select.read_fds.contains(fd) ==> fd < select.callbacks.write.len(),
    ensures
        ({
            let after = select.answered(fd, control);
            let gone = control == EventControl::DELETE;
            let reads = select.read_fds.contains(fd);
            &&& after.pipe == select.pipe
            &&& after.next_timer == select.next_timer
            &&& after.callbacks.timers == select.callbacks.timers
            &&& after.callbacks.read.len() == select.callbacks.read.len()
            &&& after.callbacks.write.len() == select.callbacks.write.len()
            &&& forall|i: int|
                0 <= i < select.callbacks.read.len() ==> #[trigger] after.callbacks.read[i] == if i
                    == fd && gone && reads {
                    None
                } else {
                    select.callbacks.read[i]
                }
            &&& forall|i: int|
                0 <= i < select.callbacks.write.len() ==> #[trigger] after.callbacks.write[i]
                    == if i == fd && gone && !reads {
                    None
                } else {
                    select.callbacks.write[i]
                }
            &&& forall|i: int| #[trigger]
                after.read_fds.contains(i) <==> select.read_fds.contains(i) && !(i == fd && gone)
            &&& forall|i: int| #[trigger]
                after.write_fds.contains(i) <==> select.write_fds.contains(i) && !(i == fd && gone
                    && !reads)
        }),
{
}

/// A descriptor is closed just if its callback asks to be deleted.
pub proof fn law_deleted_descriptor_is_closed(fd: i32)
    ensures
        close_of(fd as int, EventControl::DELETE) == Some(fd),
        close_of(fd as int, EventControl::KEEP) is None,
{
}

} // verus!
