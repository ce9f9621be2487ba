//! The event loop over a kernel event queue.
use std::time::Duration;
use vstd::prelude::*;
use crate::callbacks::{Callbacks, CallbacksView, ReadEventType};
use crate::delay::{delay_fits, period};
use crate::event::{EventControl, Filter, Flags, KEvent};
#[allow(unused_imports)]
use crate::callbacks::empty_slots;
#[allow(unused_imports)]
use crate::delay::{delay_millis, delay_period};

verus! {

/// The number of timers that a queue can hold.
pub const MAX_TIMERS: usize = 4096;

/// The number of events that one wait takes up at most.
pub const MAX_EVENTS: usize = 32;

/// A kernel queue with the callbacks registered on it.
pub struct Kqueue<A, R, W, T> {
    /// The descriptor of the kernel queue.
    pub kqid: i32,
    pub callbacks: Callbacks<A, R, W, T>,
    /// Where the search for a free timer starts.
    pub next_timer: usize,
}

/// The state of a [`Kqueue`].
#[verifier::ext_equal]
pub struct KqueueView<A, R, W, T> {
    pub kqid: i32,
    pub callbacks: CallbacksView<A, R, W, T>,
    pub next_timer: int,
}

impl<A, R, W, T> View for Kqueue<A, R, W, T> {
    type V = KqueueView<A, R, W, T>;

    open spec fn view(&self) -> KqueueView<A, R, W, T> {
        KqueueView {
            kqid: self.kqid,
            callbacks: self.callbacks@,
            next_timer: self.next_timer as int,
        }
    }
}

/// A callback that is to be run, with the descriptor that it is run on.
#[allow(inconsistent_fields)]
pub enum Call<'a, A, R, T> {
    Accept { fd: i32, callback: &'a A },
    Read { fd: i32, callback: &'a R },
    Timer { callback: &'a T },
}

/// What is left to do once a callback has run.
#[derive(Clone, Copy, Debug, PartialEq, Eq, Structural)]
pub struct Release {
    /// The record to hand to the kernel queue.
    pub change: Option<KEvent>,
    /// The descriptor to close, after that.
    pub close: Option<i32>,
}

/// Events that the kernel queue has reported, of which those from `next` on are still to be
/// handled.
pub struct Batch {
    pub events: Vec<KEvent>,
    pub next: usize,
}

/// The descriptor or timer number in a record's `ident`.
pub open spec fn event_fd(ident: usize) -> i32 {
    ident as i32
}

/// The slot that a record's `ident` stands for.
pub open spec fn event_slot(ident: usize) -> usize {
    event_fd(ident) as usize
}

/// How many steps up from `start` timer slot `slot` is, going round at the end of the table.
pub open spec fn steps_up(start: int, slot: int) -> int {
    (slot - start) % (MAX_TIMERS as int)
}

/// Whether `slot` is the first free timer slot going up from `start`.
pub open spec fn is_next_free<T>(timers: Seq<Option<T>>, start: int, slot: int) -> bool {
    &&& 0 <= slot < timers.len()
    &&& timers[slot] is None
    &&& forall|i: int|
        0 <= i < timers.len() && #[trigger] timers[i] is None ==> steps_up(start, slot)
            <= steps_up(start, i)
}

/// Whether some timer slot is free.
pub open spec fn has_free<T>(timers: Seq<Option<T>>) -> bool {
    exists|i: int| 0 <= i < timers.len() && #[trigger] timers[i] is None
}

impl<A, R, W, T> KqueueView<A, R, W, T> {
    /// A queue without callbacks, for descriptors below `num_fds`.
    pub open spec fn fresh(kqid: i32, num_fds: nat) -> Self {
        KqueueView {
            kqid,
            callbacks: CallbacksView {
                read: empty_slots::<ReadEventType<A, R>>(num_fds),
                write: empty_slots::<W>(num_fds),
                timers: empty_slots::<T>(MAX_TIMERS as nat),
            },
            next_timer: 0,
        }
    }

    /// Whether the table has the size that the queue works with.
    pub open spec fn wf(self) -> bool {
        &&& self.callbacks.timers.len() == MAX_TIMERS
        &&& 0 <= self.next_timer < MAX_TIMERS
        &&& self.callbacks.read.len() == self.callbacks.write.len()
    }

    /// Whether the table has a slot for the event.
    pub open spec fn covers(self, event: KEvent) -> bool {
        match event.filter {
            Filter::Read => event_slot(event.ident) < self.callbacks.read.len(),
            Filter::Timer => event_slot(event.ident) < self.callbacks.timers.len(),
            _ => true,
        }
    }

    /// Whether the table has a slot for each event from `next` on, up to the first one that has a
    /// callback to run, and for that one.
    pub open spec fn covers_next(self, events: Seq<KEvent>, next: int) -> bool {
        forall|i: int|
            next <= i < events.len() && (forall|j: int|
                next <= j < i ==> self.due(#[trigger] events[j]) is None) ==> self.covers(
                #[trigger] events[i],
            )
    }

    /// The callback that the event runs, if there is one.
    pub open spec fn due<'a>(self, event: KEvent) -> Option<Call<'a, A, R, T>> {
        let fd = event_fd(event.ident);
        let slot = event_slot(event.ident) as int;
        match event.filter {
            Filter::Read => match self.callbacks.read[slot] {
                Some(ReadEventType::ACCEPT(callback)) => Some(
                    Call::Accept { fd, callback: &callback },
                ),
                Some(ReadEventType::READ(callback)) => Some(
                    Call::Read { fd, callback: &callback },
                ),
                None => None,
            },
            Filter::Timer => match self.callbacks.timers[slot] {
                Some(callback) => Some(Call::Timer { callback: &callback }),
                None => None,
            },
            _ => None,
        }
    }

    /// Whether `after` is this state with `callback` in the first free timer slot from
    /// `next_timer` on.
    pub open spec fn adds_timer(self, callback: T, after: Self) -> bool {
        &&& is_next_free(self.callbacks.timers, self.next_timer, after.next_timer)
        &&& after == KqueueView {
            callbacks: self.callbacks.with_timer(after.next_timer, callback),
            next_timer: after.next_timer,
            ..self
        }
    }

    /// The state once the event's callback has given its verdict.
    pub open spec fn answered(self, event: KEvent, control: EventControl) -> Self {
        let slot = event_slot(event.ident) as int;
        match (control, event.filter) {
            (EventControl::DELETE, Filter::Read) => KqueueView {
                callbacks: self.callbacks.without_read(slot),
                ..self
            },
            (EventControl::DELETE, Filter::Timer) => KqueueView {
                callbacks: self.callbacks.without_timer(slot),
                ..self
            },
            _ => self,
        }
    }
}

/// What is left to do once the callback of `event` has given its verdict.
pub open spec fn release_of(event: KEvent, control: EventControl) -> Release {
    match control {
        EventControl::KEEP => Release { change: None, close: None },
        EventControl::DELETE => Release {
            change: Some(KEvent::deletion(event_slot(event.ident), event.filter)),
            close: if event.filter == Filter::Read { Some(event_fd(event.ident)) } else { None },
        },
    }
}

impl<A, R, W, T> Kqueue<A, R, W, T> {
    /// A queue over the kernel queue `kqid`, for descriptors below `num_fds`, and the record that
    /// makes the kernel queue listen for wake-ups.
    pub fn new(kqid: i32, num_fds: usize) -> (made: (Self, KEvent))
        ensures
            made.0@.wf(),
            made.0@ == KqueueView::<A, R, W, T>::fresh(kqid, num_fds as nat),
            made.1 == KEvent::wake_slot(),
    {
        let kq = Kqueue { kqid, callbacks: Callbacks::new(num_fds, MAX_TIMERS), next_timer: 0 };
        let user_ev = KEvent {
            ident: 0,
            filter: Filter::User,
            flags: Flags { add: true, delete: false, enable: false, clear: true },
            trigger: false,
            data: 0,
        };
        (kq, user_ev)
    }

    /// Registers a callback on a readable descriptor. The record is to be handed to the kernel
    /// queue.
    pub fn add_read_event(&mut self, fd: usize, callback: ReadEventType<A, R>) -> (change: KEvent)
        requires
            fd < old(self)@.callbacks.read.len(),
        ensures
            final(self)@ == old(self)@.reading(fd, callback),
            old(self)@.wf() ==> final(self)@.wf(),
            change == KEvent::addition(fd, Filter::Read),
    {
        self.callbacks.readevents[fd] = Some(callback);
        KEvent {
            ident: fd,
            filter: Filter::Read,
            flags: Flags { add: true, delete: false, enable: false, clear: false },
            trigger: false,
            data: 0,
        }
    }

    /// Registers a callback on a writable descriptor. The record is to be handed to the kernel
    /// queue.
    pub fn add_write_event(&mut self, fd: usize, callback: W) -> (change: KEvent)
        requires
            fd < old(self)@.callbacks.write.len(),
        ensures
            final(self)@ == old(self)@.writing(fd, callback),
            old(self)@.wf() ==> final(self)@.wf(),
            change == KEvent::addition(fd, Filter::Write),
    {
        self.callbacks.writeevents[fd] = Some(callback);
        KEvent {
            ident: fd,
            filter: Filter::Write,
            flags: Flags { add: true, delete: false, enable: false, clear: false },
            trigger: false,
            data: 0,
        }
    }

    /// Puts a timer into the first free slot from `next_timer` on. The record is to be handed to
    /// the kernel queue.
    pub fn add_timer(&mut self, callback: T, delay: Duration) -> (change: KEvent)
        requires
            old(self)@.wf(),
            has_free(old(self)@.callbacks.timers),
            delay_millis(delay) <= u64::MAX,
        ensures
            final(self)@.wf(),
            old(self)@.adds_timer(callback, final(self)@),
            change == KEvent::timer(final(self).next_timer, delay_period(delay)),
    {
        let ghost timers = self.callbacks.timers@;
        let ghost start = self.next_timer as int;
        let ghost free = choose|i: int| 0 <= i < timers.len() && #[trigger] timers[i] is None;
        while self.callbacks.timers[self.next_timer].is_some()
            invariant
                timers.len() == MAX_TIMERS,
                0 <= start < MAX_TIMERS,
                0 <= free < MAX_TIMERS,
                timers[free] is None,
                self.callbacks@ == old(self).callbacks@,
                self.kqid == old(self).kqid,
                self.callbacks.timers@ == timers,
                self.next_timer < MAX_TIMERS,
                forall|i: int|
                    0 <= i < MAX_TIMERS && steps_up(start, i) < steps_up(
                        start,
                        self.next_timer as int,
                    ) ==> #[trigger] timers[i] is Some,
            decreases MAX_TIMERS - steps_up(start, self.next_timer as int),
        {
            self.next_timer = (self.next_timer + 1) % MAX_TIMERS;
        }
        self.callbacks.timers[self.next_timer] = Some(callback);
        KEvent {
            ident: self.next_timer,
            filter: Filter::Timer,
            flags: Flags { add: true, delete: false, enable: true, clear: false },
            trigger: false,
            data: period(delay.as_secs(), delay.subsec_nanos()),
        }
    }

    /// Whether a timer slot is free.
    pub fn has_free_timer(&self) -> (free: bool)
        ensures
            free == has_free(self@.callbacks.timers),
    {
        for timer in 0..self.callbacks.timers.len()
            invariant
                forall|i: int| 0 <= i < timer ==> #[trigger] self.callbacks.timers[i] is Some,
        {
            if self.callbacks.timers[timer].is_none() {
                assert(self@.callbacks.timers[timer as int] is None);
                return true;
            }
        }
        false
    }

    /// Puts a timer into the first free slot from `next_timer` on, as [`Kqueue::add_timer`] does.
    /// Without a free slot, or with a delay whose milliseconds cannot be counted, the callback
    /// comes back.
    pub fn try_add_timer(&mut self, callback: T, delay: Duration) -> (added: Result<KEvent, T>)
        requires
            old(self)@.wf(),
        ensures
            final(self)@.wf(),
            added is Ok <==> has_free(old(self)@.callbacks.timers) && delay_millis(delay)
                <= u64::MAX,
            added matches Ok(change) ==> {
                &&& old(self)@.adds_timer(callback, final(self)@)
                &&& change == KEvent::timer(final(self).next_timer, delay_period(delay))
            },
            added matches Err(unused) ==> unused == callback && final(self)@ == old(self)@,
    {
        if self.has_free_timer() && delay_fits(&delay) {
            Ok(self.add_timer(callback, delay))
        } else {
            Err(callback)
        }
    }

    /// The record that wakes the loop up once it is handed to the kernel queue.
    pub fn notify(&self) -> (change: KEvent)
        ensures
            change == KEvent::wake_up(),
    {
        KEvent::new_wake_up()
    }

    /// Whether the table has a slot for the event.
    pub fn covers(&self, event: &KEvent) -> (covered: bool)
        ensures
            covered == self@.covers(*event),
    {
        #[verifier::truncate]
        let fd: i32 = event.ident as i32;
        #[verifier::truncate]
        let slot: usize = fd as usize;
        match event.filter {
            Filter::Read => slot < self.callbacks.readevents.len(),
            Filter::Timer => slot < self.callbacks.timers.len(),
            _ => true,
        }
    }

    /// Whether the event has a callback to run.
    fn is_due(&self, event: &KEvent) -> (due: bool)
        requires
            self@.covers(*event),
        ensures
            due == self@.due(*event) is Some,
    {
        #[verifier::truncate]
        let fd: i32 = event.ident as i32;
        #[verifier::truncate]
        let slot: usize = fd as usize;
        match event.filter {
            Filter::Read => self.callbacks.readevents[slot].is_some(),
            Filter::Timer => self.callbacks.timers[slot].is_some(),
            _ => false,
        }
    }

    /// Whether the table has a slot for each event of the batch up to the next one that has a
    /// callback to run, and for that one.
    pub fn covers_next(&self, batch: &Batch) -> (covered: bool)
        ensures
            covered == self@.covers_next(batch.events@, batch.next as int),
    {
        let mut i: usize = batch.next;
        while i < batch.events.len()
            invariant
                batch.next <= i,
                forall|j: int|
                    batch.next <= j < i ==> self@.covers(#[trigger] batch.events@[j]) && self@.due(
                        batch.events@[j],
                    ) is None,
            decreases batch.events.len() - i,
        {
            let event = batch.events[i];
            if !self.covers(&event) {
                assert(!self@.covers(batch.events@[i as int]));
                return false;
            }
            if self.is_due(&event) {
                assert(self@.due(batch.events@[i as int]) is Some);
                return true;
            }
            i = i + 1;
        }
        true
    }

    /// Takes up what the kernel queue has reported: the first `nev` records of `ev_list`, or none
    /// where `nev` tells of a failure. The kernel queue is to be asked for [`MAX_EVENTS`] records
    /// at most.
    pub fn handle_events(&self, nev: i32, ev_list: Vec<KEvent>) -> (batch: Batch)
        requires
            nev <= ev_list.len(),
            nev <= MAX_EVENTS,
        ensures
            batch.next == 0,
            batch.events.len() <= MAX_EVENTS,
            batch.events@ == ev_list@.take(if nev < 0 { 0 } else { nev as int }),
    {
        let mut events = ev_list;
        if nev <= 0 {
            events.truncate(0);
        } else {
            events.truncate(nev as usize);
        }
        Batch { events, next: 0 }
    }

    /// Moves on to the next event of the batch that has a callback to run, and gives that
    /// callback. Without one the batch is done.
    pub fn next_call<'a>(&'a self, batch: &mut Batch) -> (call: Option<Call<'a, A, R, T>>)
        requires
            old(batch).next <= old(batch).events.len(),
            self@.covers_next(old(batch).events@, old(batch).next as int),
        ensures
            final(batch).events@ == old(batch).events@,
            old(batch).next <= final(batch).next <= final(batch).events.len(),
            forall|i: int|
                old(batch).next <= i < final(batch).next ==> self@.due(
                    #[trigger] final(batch).events[i],
                ) is None,
            call == (if final(batch).next < final(batch).events.len() {
                self@.due(final(batch).events[final(batch).next as int])
            } else {
                None
            }),
            call is Some <==> final(batch).next < final(batch).events.len(),
    {
        while batch.next < batch.events.len()
            invariant
                batch.events@ == old(batch).events@,
                old(batch).next <= batch.next <= batch.events.len(),
                self@.covers_next(batch.events@, old(batch).next as int),
                forall|i: int|
                    old(batch).next <= i < batch.next ==> self@.due(
                        #[trigger] batch.events@[i],
                    ) is None,
            decreases batch.events.len() - batch.next,
        {
            let event = batch.events[batch.next];
            assert(self@.covers(batch.events@[batch.next as int]));
            #[verifier::truncate]
            let fd: i32 = event.ident as i32;
            #[verifier::truncate]
            let slot: usize = fd as usize;
            match event.filter {
                Filter::Read => {
                    match &self.callbacks.readevents[slot] {
                        Some(ReadEventType::ACCEPT(callback)) => {
                            return Some(Call::Accept { fd, callback });
                        },
                        Some(ReadEventType::READ(callback)) => {
                            return Some(Call::Read { fd, callback });
                        },
                        None => {},
                    }
                },
                Filter::Timer => {
                    match &self.callbacks.timers[slot] {
                        Some(callback) => {
                            return Some(Call::Timer { callback });
                        },
                        None => {},
                    }
                },
                _ => {},
            }
            batch.next = batch.next + 1;
        }
        None
    }

    /// Takes the verdict of the callback that the batch stands at, and moves past its event.
    pub fn answer(&mut self, batch: &mut Batch, control: EventControl) -> (release: Release)
        requires
            old(batch).next < old(batch).events.len(),
            old(self)@.covers(old(batch).events[old(batch).next as int]),
            old(self)@.due(old(batch).events[old(batch).next as int]) is Some,
        ensures
            final(batch).events@ == old(batch).events@,
            final(batch).next == old(batch).next + 1,
            final(self)@ == old(self)@.answered(
                old(batch).events[old(batch).next as int],
                control,
            ),
            old(self)@.wf() ==> final(self)@.wf(),
            release == release_of(old(batch).events[old(batch).next as int], control),
    {
        let event = batch.events[batch.next];
        batch.next = batch.next + 1;
        match control {
            EventControl::KEEP => Release { change: None, close: None },
            EventControl::DELETE => {
                #[verifier::truncate]
                let fd: i32 = event.ident as i32;
                #[verifier::truncate]
                let slot: usize = fd as usize;
                let close = match event.filter {
                    Filter::Read => {
                        self.callbacks.readevents[slot] = None;
                        Some(fd)
                    },
                    _ => {
                        self.callbacks.timers[slot] = None;
                        None
                    },
                };
                let change = KEvent {
                    ident: slot,
                    filter: event.filter,
                    flags: Flags { add: false, delete: true, enable: false, clear: false },
                    trigger: false,
                    data: 0,
                };
                Release { change: Some(change), close }
            },
        }
    }
}

/// What the records handed to the kernel queue have asked it to watch, once `change` is handed to
/// it too.
pub open spec fn watched_after(watched: Set<(Filter, usize)>, change: KEvent) -> Set<
    (Filter, usize),
> {
    if change.flags.delete {
        watched.remove((change.filter, change.ident))
    } else if change.flags.add {
        watched.insert((change.filter, change.ident))
    } else {
        watched
    }
}

/// What the kernel queue has been asked to watch, once the callback of `event` has given its
/// verdict.
pub open spec fn watched_after_answer(
    watched: Set<(Filter, usize)>,
    event: KEvent,
    control: EventControl,
) -> Set<(Filter, usize)> {
    match release_of(event, control).change {
        Some(change) => watched_after(watched, change),
        None => watched,
    }
}

impl<A, R, W, T> KqueueView<A, R, W, T> {
    /// Whether the kernel queue has been asked to watch just what has a callback.
    pub open spec fn in_step(self, watched: Set<(Filter, usize)>) -> bool {
        &&& forall|fd: usize| #[trigger]
            watched.contains((Filter::Read, fd)) <==> fd < self.callbacks.read.len()
                && self.callbacks.read[fd as int] is Some
        &&& forall|fd: usize| #[trigger]
            watched.contains((Filter::Write, fd)) <==> fd < self.callbacks.write.len()
                && self.callbacks.write[fd as int] is Some
        &&& forall|timer: usize| #[trigger]
            watched.contains((Filter::Timer, timer)) <==> timer < self.callbacks.timers.len()
                && self.callbacks.timers[timer as int] is Some
    }

    /// The queue with a callback registered on readable descriptor `fd`.
    pub open spec fn reading(self, fd: usize, callback: ReadEventType<A, R>) -> Self {
        KqueueView { callbacks: self.callbacks.with_read(fd as int, callback), ..self }
    }

    /// The queue with a callback registered on writable descriptor `fd`.
    pub open spec fn writing(self, fd: usize, callback: W) -> Self {
        KqueueView { callbacks: self.callbacks.with_write(fd as int, callback), ..self }
    }
}

/// A new queue runs no callback on any event.
pub proof fn law_fresh_queue_is_silent<A, R, W, T>(kqid: i32, num_fds: nat, event: KEvent)
    requires
        KqueueView::<A, R, W, T>::fresh(kqid, num_fds).covers(event),
    ensures
        KqueueView::<A, R, W, T>::fresh(kqid, num_fds).due(event) is None,
{
}

/// A callback registered on a readable descriptor is the one that runs when the descriptor can be
/// read, on that descriptor.
pub proof fn law_registered_callback_runs<A, R, W, T>(
    kq: KqueueView<A, R, W, T>,
    fd: usize,
    callback: ReadEventType<A, R>,
    event: KEvent,
)
    requires
        fd < kq.callbacks.read.len(),
        fd <= i32::MAX,
        event.filter == Filter::Read,
        event.ident == fd,
    ensures
        kq.reading(fd, callback).covers(event),
        match callback {
            ReadEventType::ACCEPT(accept) => kq.reading(fd, callback).due(event) == Some::<
                Call<'_, A, R, T>,
            >(Call::Accept { fd: fd as i32, callback: &accept }),
            ReadEventType::READ(read) => kq.reading(fd, callback).due(event) == Some::<
                Call<'_, A, R, T>,
            >(Call::Read { fd: fd as i32, callback: &read }),
        },
{
}

/// A registration on one readable descriptor changes nothing for any other event, and one on a
/// writable descriptor changes nothing for any event.
pub proof fn law_registration_is_local<A, R, W, T>(
    kq: KqueueView<A, R, W, T>,
    fd: usize,
    callback: ReadEventType<A, R>,
    writer: W,
    event: KEvent,
)
    requires
        fd < kq.callbacks.read.len(),
        fd < kq.callbacks.write.len(),
        kq.covers(event),
    ensures
        !(event.filter == Filter::Read && event_slot(event.ident) == fd) ==> kq.reading(
            fd,
            callback,
        ).due(event) == kq.due(event),
        kq.writing(fd, writer).due(event) == kq.due(event),
{
}

/// A callback that asks to be kept runs again on the next event of its kind, and nothing is asked
/// of the kernel queue.
pub proof fn law_kept_callback_runs_again<A, R, W, T>(kq: KqueueView<A, R, W, T>, event: KEvent)
    ensures
        kq.answered(event, EventControl::KEEP) == kq,
        kq.answered(event, EventControl::KEEP).due(event) == kq.due(event),
        release_of(event, EventControl::KEEP) == (Release { change: None, close: None }),
{
}

/// A callback that asks to be deleted does not run again. What runs on every other event stays as
/// it is.
pub proof fn law_deleted_callback_is_gone<A, R, W, T>(
    kq: KqueueView<A, R, W, T>,
    event: KEvent,
    other: KEvent,
)
    requires
        kq.covers(event),
        kq.covers(other),
        kq.due(event) is Some,
    ensures
        kq.answered(event, EventControl::DELETE).due(event) is None,
        !(other.filter == event.filter && event_slot(other.ident) == event_slot(event.ident))
            ==> kq.answered(event, EventControl::DELETE).due(other) == kq.due(other),
{
}

/// There is one slot that a new timer can go into.
pub proof fn law_next_free_slot_is_unique<T>(
    timers: Seq<Option<T>>,
    start: int,
    slot: int,
    other: int,
)
    requires
        timers.len() == MAX_TIMERS,
        0 <= start < MAX_TIMERS,
        is_next_free(timers, start, slot),
        is_next_free(timers, start, other),
    ensures
        slot == other,
{
}

/// A timer that is added runs when it expires, and it displaces no other timer.
pub proof fn law_added_timer_runs<A, R, W, T>(
    kq: KqueueView<A, R, W, T>,
    callback: T,
    after: KqueueView<A, R, W, T>,
    event: KEvent,
    other: KEvent,
)
    requires
        kq.wf(),
        kq.adds_timer(callback, after),
        event.filter == Filter::Timer,
        event.ident == after.next_timer,
    ensures
        kq.due(event) is None,
        after.due(event) == Some::<Call<'_, A, R, T>>(Call::Timer { callback: &callback }),
        kq.covers(other) && kq.due(other) is Some ==> after.due(other) == kq.due(other),
{
}

/// A timer that is deleted leaves a slot free for the next one.
pub proof fn law_deleted_timer_frees_a_slot<A, R, W, T>(
    kq: KqueueView<A, R, W, T>,
    event: KEvent,
)
    requires
        kq.covers(event),
        event.filter == Filter::Timer,
        kq.due(event) is Some,
    ensures
        has_free(kq.answered(event, EventControl::DELETE).callbacks.timers),
{
    let timers = kq.answered(event, EventControl::DELETE).callbacks.timers;
    assert(timers[event_slot(event.ident) as int] is None);
}

/// A new queue, whose kernel queue has been handed the one record that comes with it, is in step.
pub proof fn law_fresh_queue_is_in_step<A, R, W, T>(kqid: i32, num_fds: nat)
    ensures
        KqueueView::<A, R, W, T>::fresh(kqid, num_fds).in_step(
            watched_after(Set::empty(), KEvent::wake_slot()),
        ),
{
}

/// Registrations and verdicts keep a queue in step, as long as each record that comes of them is
/// handed to the kernel queue. So does waking the loop up.
pub proof fn law_queue_stays_in_step<A, R, W, T>(
    kq: KqueueView<A, R, W, T>,
    watched: Set<(Filter, usize)>,
    fd: usize,
    callback: ReadEventType<A, R>,
    writer: W,
    event: KEvent,
    control: EventControl,
)
    requires
        kq.in_step(watched),
    ensures
        fd < kq.callbacks.read.len() ==> kq.reading(fd, callback).in_step(
            watched_after(watched, KEvent::addition(fd, Filter::Read)),
        ),
        fd < kq.callbacks.write.len() ==> kq.writing(fd, writer).in_step(
            watched_after(watched, KEvent::addition(fd, Filter::Write)),
        ),
        kq.covers(event) && kq.due(event) is Some ==> kq.answered(event, control).in_step(
            watched_after_answer(watched, event, control),
        ),
        kq.in_step(watched_after(watched, KEvent::wake_up())),
{
}

/// A timer that is added keeps a queue in step, as long as its record is handed to the kernel
/// queue.
pub proof fn law_added_timer_keeps_in_step<A, R, W, T>(
    kq: KqueueView<A, R, W, T>,
    watched: Set<(Filter, usize)>,
    callback: T,
    after: KqueueView<A, R, W, T>,
    period: isize,
)
    requires
        kq.wf(),
        kq.in_step(watched),
        kq.adds_timer(callback, after),
    ensures
        after.in_step(watched_after(watched, KEvent::timer(after.next_timer as usize, period))),
{
}

/// The state of the queue when the first `count` events of a batch have been handled, where the
/// callback of event `i`, if it has one at its turn, gives verdict `verdicts[i]`.
pub open spec fn batch_state<A, R, W, T>(
    kq: KqueueView<A, R, W, T>,
    events: Seq<KEvent>,
    verdicts: Seq<EventControl>,
    count: nat,
) -> KqueueView<A, R, W, T>
    decreases count,
{
    if count == 0 {
        kq
    } else {
        let last = (count - 1) as nat;
        let before = batch_state(kq, events, verdicts, last);
        if before.due(events[last as int]) is Some {
            before.answered(events[last as int], verdicts[last as int])
        } else {
            before
        }
    }
}

/// The events, by their place in the batch, whose callbacks have run when the first `count` events
/// have been handled, in the order of the runs.
pub open spec fn batch_runs<A, R, W, T>(
    kq: KqueueView<A, R, W, T>,
    events: Seq<KEvent>,
    verdicts: Seq<EventControl>,
    count: nat,
) -> Seq<int>
    decreases count,
{
    if count == 0 {
        Seq::empty()
    } else {
        let last = (count - 1) as nat;
        let before = batch_runs(kq, events, verdicts, last);
        if batch_state(kq, events, verdicts, last).due(events[last as int]) is Some {
            before.push(last as int)
        } else {
            before
        }
    }
}

/// What is left to do for the callbacks that have run when the first `count` events of a batch have
/// been handled, in the order of the runs.
pub open spec fn batch_releases<A, R, W, T>(
    kq: KqueueView<A, R, W, T>,
    events: Seq<KEvent>,
    verdicts: Seq<EventControl>,
    count: nat,
) -> Seq<Release>
    decreases count,
{
    if count == 0 {
        Seq::empty()
    } else {
        let last = (count - 1) as nat;
        let before = batch_releases(kq, events, verdicts, last);
        if batch_state(kq, events, verdicts, last).due(events[last as int]) is Some {
            before.push(release_of(events[last as int], verdicts[last as int]))
        } else {
            before
        }
    }
}

/// What the kernel queue has been asked to watch, once the records of all of `releases` have been
/// handed to it, the first one first.
pub open spec fn watched_after_releases(
    watched: Set<(Filter, usize)>,
    releases: Seq<Release>,
) -> Set<(Filter, usize)>
    decreases releases.len(),
{
    if releases.len() == 0 {
        watched
    } else {
        let before = watched_after_releases(watched, releases.drop_last());
        match releases.last().change {
            Some(change) => watched_after(before, change),
            None => before,
        }
    }
}

/// Looking for the next callback and answering for it is how a batch goes on: events without a
/// callback change nothing, and the answer for the next one gives the state behind it and what is
/// left to do for it.
pub proof fn law_batch_goes_on<A, R, W, T>(
    kq: KqueueView<A, R, W, T>,
    events: Seq<KEvent>,
    verdicts: Seq<EventControl>,
    from: nat,
    to: nat,
)
    requires
        from <= to <= events.len(),
        forall|i: int|
            from <= i < to ==> batch_state(kq, events, verdicts, from).due(
                #[trigger] events[i],
            ) is None,
    ensures
        batch_state(kq, events, verdicts, to) == batch_state(kq, events, verdicts, from),
        batch_runs(kq, events, verdicts, to) == batch_runs(kq, events, verdicts, from),
        batch_releases(kq, events, verdicts, to) == batch_releases(kq, events, verdicts, from),
        to < events.len() && batch_state(kq, events, verdicts, to).due(events[to as int]) is Some
            ==> {
            &&& batch_state(kq, events, verdicts, to + 1) == batch_state(
                kq,
                events,
                verdicts,
                to,
            ).answered(events[to as int], verdicts[to as int])
            &&& batch_runs(kq, events, verdicts, to + 1) == batch_runs(
                kq,
                events,
                verdicts,
                to,
            ).push(to as int)
            &&& batch_releases(kq, events, verdicts, to + 1) == batch_releases(
                kq,
                events,
                verdicts,
                to,
            ).push(release_of(events[to as int], verdicts[to as int]))
        },
    decreases to - from,
{
    if from < to {
        law_batch_goes_on(kq, events, verdicts, from, (to - 1) as nat);
        assert(batch_state(kq, events, verdicts, from).due(events[to - 1]) is None);
    }
}

/// The callbacks of a batch run in the order of its events, at most one for each event, so no more
/// of them than there are events: just those run that are registered when their event's turn comes.
pub proof fn law_batch_runs_in_event_order<A, R, W, T>(
    kq: KqueueView<A, R, W, T>,
    events: Seq<KEvent>,
    verdicts: Seq<EventControl>,
    count: nat,
)
    ensures
        batch_runs(kq, events, verdicts, count).len() <= count,
        forall|a: int, b: int|
            0 <= a < b < batch_runs(kq, events, verdicts, count).len() ==> #[trigger] batch_runs(
                kq,
                events,
                verdicts,
                count,
            )[a] < #[trigger] batch_runs(kq, events, verdicts, count)[b],
        forall|i: int| #[trigger]
            batch_runs(kq, events, verdicts, count).contains(i) <==> 0 <= i < count && batch_state(
                kq,
                events,
                verdicts,
                i as nat,
            ).due(events[i]) is Some,
    decreases count,
{
    if count > 0 {
        let last = (count - 1) as nat;
        let before = batch_runs(kq, events, verdicts, last);
        let runs = batch_runs(kq, events, verdicts, count);
        law_batch_runs_in_event_order(kq, events, verdicts, last);
        assert forall|a: int| 0 <= a < before.len() implies #[trigger] before[a] < last by {
            assert(before.contains(before[a]));
        }
        assert forall|i: int| #[trigger] runs.contains(i) <==> 0 <= i < count && batch_state(
            kq,
            events,
            verdicts,
            i as nat,
        ).due(events[i]) is Some by {
            if batch_state(kq, events, verdicts, last).due(events[last as int]) is Some {
                if before.contains(i) {
                    let at = before.index_of(i);
                    assert(runs[at] == i);
                }
                if i == last {
                    assert(runs[before.len() as int] == i);
                }
                if runs.contains(i) {
                    let at = runs.index_of(i);
                    if at < before.len() {
                        assert(before[at] == i);
                    }
                }
            } else {
                assert(before.contains(i) <==> runs.contains(i));
            }
        }
    }
}

/// Whether event `i` of a batch runs the callback in `slot` of `filter`, which asks to be deleted.
pub open spec fn deleted_at<A, R, W, T>(
    kq: KqueueView<A, R, W, T>,
    events: Seq<KEvent>,
    verdicts: Seq<EventControl>,
    i: int,
    filter: Filter,
    slot: int,
) -> bool {
    &&& events[i].filter == filter
    &&& event_slot(events[i].ident) == slot
    &&& batch_state(kq, events, verdicts, i as nat).due(events[i]) is Some
    &&& verdicts[i] == EventControl::DELETE
}

/// Whether one of the first `count` events of a batch runs the callback in `slot` of `filter`,
/// which asks to be deleted.
pub open spec fn deleted_in_batch<A, R, W, T>(
    kq: KqueueView<A, R, W, T>,
    events: Seq<KEvent>,
    verdicts: Seq<EventControl>,
    count: nat,
    filter: Filter,
    slot: int,
) -> bool {
    exists|i: int|
        0 <= i < count && #[trigger] deleted_at(kq, events, verdicts, i, filter, slot)
}

/// A batch changes nothing but the slots of events whose callback ran and asked to be deleted:
/// those are empty afterwards. Callbacks on writable descriptors are never touched.
pub proof fn law_batch_changes_only_deleted_slots<A, R, W, T>(
    kq: KqueueView<A, R, W, T>,
    events: Seq<KEvent>,
    verdicts: Seq<EventControl>,
    count: nat,
)
    requires
        forall|i: int| 0 <= i < count ==> kq.covers(#[trigger] events[i]),
    ensures
        ({
            let after = batch_state(kq, events, verdicts, count);
            &&& after.kqid == kq.kqid
            &&& after.next_timer == kq.next_timer
            &&& after.callbacks.write == kq.callbacks.write
            &&& after.callbacks.read.len() == kq.callbacks.read.len()
            &&& after.callbacks.timers.len() == kq.callbacks.timers.len()
            &&& forall|slot: int|
                0 <= slot < kq.callbacks.read.len() ==> #[trigger] after.callbacks.read[slot]
                    == if deleted_in_batch(kq, events, verdicts, count, Filter::Read, slot) {
                    None
                } else {
                    kq.callbacks.read[slot]
                }
            &&& forall|slot: int|
                0 <= slot < kq.callbacks.timers.len() ==> #[trigger] after.callbacks.timers[slot]
                    == if deleted_in_batch(kq, events, verdicts, count, Filter::Timer, slot) {
                    None
                } else {
                    kq.callbacks.timers[slot]
                }
        }),
    decreases count,
{
    if count > 0 {
        let last = (count - 1) as nat;
        law_batch_changes_only_deleted_slots(kq, events, verdicts, last);
        assert(kq.covers(events[last as int]));
        assert forall|filter: Filter, slot: int|
            #[trigger] deleted_in_batch(kq, events, verdicts, count, filter, slot)
                == (deleted_in_batch(kq, events, verdicts, last, filter, slot) || deleted_at(
                kq,
                events,
                verdicts,
                last as int,
                filter,
                slot,
            )) by {
            if deleted_in_batch(kq, events, verdicts, last, filter, slot) {
                let i = choose|i: int|
                    0 <= i < last && #[trigger] deleted_at(kq, events, verdicts, i, filter, slot);
                assert(deleted_at(kq, events, verdicts, i, filter, slot));
            }
        }
    }
}

/// What a batch leaves to do is one thing for each callback that runs, in the order of the runs.
pub proof fn law_batch_releases_follow_the_runs<A, R, W, T>(
    kq: KqueueView<A, R, W, T>,
    events: Seq<KEvent>,
    verdicts: Seq<EventControl>,
    count: nat,
)
    ensures
        batch_releases(kq, events, verdicts, count).len() == batch_runs(
            kq,
            events,
            verdicts,
            count,
        ).len(),
        forall|a: int|
            0 <= a < batch_runs(kq, events, verdicts, count).len() ==> #[trigger] batch_releases(
                kq,
                events,
                verdicts,
                count,
            )[a] == release_of(
                events[batch_runs(kq, events, verdicts, count)[a]],
                verdicts[batch_runs(kq, events, verdicts, count)[a]],
            ),
    decreases count,
{
    if count > 0 {
        law_batch_releases_follow_the_runs(kq, events, verdicts, (count - 1) as nat);
    }
}

/// Whether event `i` of a batch runs a callback on readable descriptor `fd` that asks to be
/// deleted.
pub open spec fn closes_at<A, R, W, T>(
    kq: KqueueView<A, R, W, T>,
    events: Seq<KEvent>,
    verdicts: Seq<EventControl>,
    i: int,
    fd: i32,
) -> bool {
    &&& event_fd(events[i].ident) == fd
    &&& deleted_at(kq, events, verdicts, i, Filter::Read, event_slot(events[i].ident) as int)
}

/// A batch has a descriptor closed if, and only if, a callback on that readable descriptor has run
/// and asked to be deleted.
pub proof fn law_batch_closes_what_is_deleted<A, R, W, T>(
    kq: KqueueView<A, R, W, T>,
    events: Seq<KEvent>,
    verdicts: Seq<EventControl>,
    count: nat,
    fd: i32,
)
    ensures
        (exists|a: int|
            0 <= a < batch_releases(kq, events, verdicts, count).len() && (
            #[trigger] batch_releases(kq, events, verdicts, count)[a]).close == Some(fd))
            <==> exists|i: int|
            0 <= i < count && #[trigger] closes_at(kq, events, verdicts, i, fd),
    decreases count,
{
    if count > 0 {
        let last = (count - 1) as nat;
        let before = batch_releases(kq, events, verdicts, last);
        let releases = batch_releases(kq, events, verdicts, count);
        law_batch_closes_what_is_deleted(kq, events, verdicts, last, fd);
        if exists|a: int| 0 <= a < before.len() && (#[trigger] before[a]).close == Some(fd) {
            let a = choose|a: int|
                0 <= a < before.len() && (#[trigger] before[a]).close == Some(fd);
            assert(releases[a].close == Some(fd));
        }
        if closes_at(kq, events, verdicts, last as int, fd) {
            assert(releases[before.len() as int].close == Some(fd));
        }
        if exists|a: int| 0 <= a < releases.len() && (#[trigger] releases[a]).close == Some(fd) {
            let a = choose|a: int|
                0 <= a < releases.len() && (#[trigger] releases[a]).close == Some(fd);
            if a < before.len() {
                assert(before[a].close == Some(fd));
            } else {
                assert(closes_at(kq, events, verdicts, last as int, fd));
            }
        }
    }
}

/// A batch has no descriptor closed twice.
pub proof fn law_batch_closes_once<A, R, W, T>(
    kq: KqueueView<A, R, W, T>,
    events: Seq<KEvent>,
    verdicts: Seq<EventControl>,
    first: int,
    second: int,
    fd: i32,
)
    requires
        0 <= first < second < events.len(),
        forall|i: int| 0 <= i < events.len() ==> kq.covers(#[trigger] events[i]),
        closes_at(kq, events, verdicts, first, fd),
    ensures
        !closes_at(kq, events, verdicts, second, fd),
{
    if closes_at(kq, events, verdicts, second, fd) {
        let slot = event_slot(events[second].ident) as int;
        law_batch_changes_only_deleted_slots(kq, events, verdicts, second as nat);
        assert(kq.covers(events[second]));
        assert(deleted_at(kq, events, verdicts, first, Filter::Read, slot));
        let state = batch_state(kq, events, verdicts, second as nat);
        assert(state.callbacks.read[slot] is None);
    }
}

/// A batch keeps a queue in step, as long as the records that it leaves are handed to the kernel
/// queue in their order.
pub proof fn law_batch_keeps_in_step<A, R, W, T>(
    kq: KqueueView<A, R, W, T>,
    events: Seq<KEvent>,
    verdicts: Seq<EventControl>,
    count: nat,
    watched: Set<(Filter, usize)>,
)
    requires
        kq.in_step(watched),
        forall|i: int| 0 <= i < count ==> kq.covers(#[trigger] events[i]),
    ensures
        batch_state(kq, events, verdicts, count).in_step(
            watched_after_releases(watched, batch_releases(kq, events, verdicts, count)),
        ),
    decreases count,
{
    if count > 0 {
        let last = (count - 1) as nat;
        let before = batch_releases(kq, events, verdicts, last);
        let state = batch_state(kq, events, verdicts, last);
        let event = events[last as int];
        law_batch_keeps_in_step(kq, events, verdicts, last, watched);
        law_batch_changes_only_deleted_slots(kq, events, verdicts, last);
        assert(kq.covers(event));
        if state.due(event) is Some {
            let release = release_of(event, verdicts[last as int]);
            assert(before.push(release).drop_last() =~= before);
            assert(watched_after_releases(watched, before.push(release)) == watched_after_answer(
                watched_after_releases(watched, before),
                event,
                verdicts[last as int],
            ));
        }
    }
}

/// The state of a queue is what its fields hold.
pub proof fn law_state_is_in_the_fields<A, R, W, T>(kq: Kqueue<A, R, W, T>)
    ensures
        kq@.kqid == kq.kqid,
        kq@.next_timer == kq.next_timer,
        kq@.callbacks.read == kq.callbacks.readevents@,
        kq@.callbacks.write == kq.callbacks.writeevents@,
        kq@.callbacks.timers == kq.callbacks.timers@,
{
}

/// A record's `ident` is its descriptor or timer number as it stands, and so is its slot. Of an
/// `ident` that no descriptor has, the lower thirty-two bits count; where they give a negative
/// number, the slot is beyond every descriptor.
pub proof fn law_ident_is_the_number(ident: usize)
    ensures
        ident <= i32::MAX ==> event_fd(ident) == ident && event_slot(ident) == ident,
        (ident - event_fd(ident)) % 0x1_0000_0000 == 0,
        event_fd(ident) >= 0 ==> event_slot(ident) == event_fd(ident),
        event_fd(ident) < 0 ==> event_slot(ident) > i32::MAX,
{
    let fd = ident as i32;
    let slot = fd as usize;
    assert((ident - fd) % 0x1_0000_0000 == 0) by (bit_vector)
        requires
            fd == ident as i32,
    ;
    assert(fd < 0 ==> slot > 0x7fff_ffff) by (bit_vector)
        requires
            slot == fd as usize,
    ;
}

/// A new queue has a slot for each descriptor below `num_fds`, for reading and for writing, and one
/// for each timer. All of them are empty, and timers are given out from the first slot on.
pub proof fn law_fresh_queue_is_empty<A, R, W, T>(kqid: i32, num_fds: nat)
    ensures
        ({
            let kq = KqueueView::<A, R, W, T>::fresh(kqid, num_fds);
            &&& kq.kqid == kqid
            &&& kq.next_timer == 0
            &&& kq.callbacks.read.len() == num_fds
            &&& kq.callbacks.write.len() == num_fds
            &&& kq.callbacks.timers.len() == MAX_TIMERS
            &&& forall|i: int| 0 <= i < num_fds ==> #[trigger] kq.callbacks.read[i] is None
            &&& forall|i: int| 0 <= i < num_fds ==> #[trigger] kq.callbacks.write[i] is None
            &&& forall|i: int| 0 <= i < MAX_TIMERS ==> #[trigger] kq.callbacks.timers[i] is None
        }),
{
}

/// A registration puts its callback into the slot of its descriptor and changes nothing else: not
/// the callbacks on other descriptors, not the other callback on the same descriptor, no timer.
pub proof fn law_registration_changes_one_slot<A, R, W, T>(
    kq: KqueueView<A, R, W, T>,
    fd: usize,
    callback: ReadEventType<A, R>,
    writer: W,
)
    ensures
        fd < kq.callbacks.read.len() ==> {
            let after = kq.reading(fd, callback);
            &&& after.callbacks.read.len() == kq.callbacks.read.len()
            &&& after.callbacks.read[fd as int] == Some(callback)
            &&& forall|i: int|
                0 <= i < kq.callbacks.read.len() && i != fd ==> #[trigger] after.callbacks.read[i]
                    == kq.callbacks.read[i]
            &&& after.callbacks.write == kq.callbacks.write
            &&& after.callbacks.timers == kq.callbacks.timers
            &&& after.next_timer == kq.next_timer
            &&& after.kqid == kq.kqid
        },
        fd < kq.callbacks.write.len() ==> {
            let after = kq.writing(fd, writer);
            &&& after.callbacks.write.len() == kq.callbacks.write.len()
            &&& after.callbacks.write[fd as int] == Some(writer)
            &&& forall|i: int|
                0 <= i < kq.callbacks.write.len() && i != fd ==> #[trigger] after.callbacks.write[i]
                    == kq.callbacks.write[i]
            &&& after.callbacks.read == kq.callbacks.read
            &&& after.callbacks.timers == kq.callbacks.timers
            &&& after.next_timer == kq.next_timer
            &&& after.kqid == kq.kqid
        },
{
}

/// A slot is free just if it holds no timer.
pub proof fn law_free_slot_holds_no_timer<T>(timers: Seq<Option<T>>)
    ensures
        !has_free(timers) <==> forall|i: int|
            0 <= i < timers.len() ==> #[trigger] timers[i] is Some,
{
}

/// A new timer goes into a slot that was empty. Every slot from `next_timer` up to that one, going
/// round at the end of the table, holds a timer already. Nothing else changes, except that the next
/// search starts from that slot.
pub proof fn law_added_timer_takes_the_first_free_slot<A, R, W, T>(
    kq: KqueueView<A, R, W, T>,
    callback: T,
    after: KqueueView<A, R, W, T>,
)
    requires
        kq.wf(),
        kq.adds_timer(callback, after),
    ensures
        ({
            let slot = after.next_timer;
            let start = kq.next_timer;
            let timers = kq.callbacks.timers;
            &&& 0 <= slot < MAX_TIMERS
            &&& timers[slot] is None
            &&& start <= slot ==> forall|i: int|
                start <= i < slot ==> #[trigger] timers[i] is Some
            &&& slot < start ==> forall|i: int|
                (start <= i < MAX_TIMERS || 0 <= i < slot) ==> #[trigger] timers[i] is Some
            &&& after.callbacks.timers.len() == timers.len()
            &&& after.callbacks.timers[slot] == Some(callback)
            &&& forall|i: int|
                0 <= i < timers.len() && i != slot ==> #[trigger] after.callbacks.timers[i]
                    == timers[i]
            &&& after.callbacks.read == kq.callbacks.read
            &&& after.callbacks.write == kq.callbacks.write
            &&& after.kqid == kq.kqid
        }),
{
}

/// The table has a slot for a read event or a timer event just if the number in the event is below
/// the number of slots. Other events need none.
pub proof fn law_covered_events_are_in_range<A, R, W, T>(kq: KqueueView<A, R, W, T>, event: KEvent)
    ensures
        event_fd(event.ident) >= 0 && event.filter == Filter::Read ==> (kq.covers(event)
            <==> event_fd(event.ident) < kq.callbacks.read.len()),
        event_fd(event.ident) >= 0 && event.filter == Filter::Timer ==> (kq.covers(event)
            <==> event_fd(event.ident) < kq.callbacks.timers.len()),
        event_fd(event.ident) < 0 && event.filter == Filter::Read && kq.callbacks.read.len()
            <= i32::MAX ==> !kq.covers(event),
        event_fd(event.ident) < 0 && event.filter == Filter::Timer && kq.callbacks.timers.len()
            <= i32::MAX ==> !kq.covers(event),
        event.filter != Filter::Read && event.filter != Filter::Timer ==> kq.covers(event),
{
    law_ident_is_the_number(event.ident);
}

/// The search for the next callback can go on just if the event that it stands at has a slot and,
/// where that one has no callback to run, the search can go on behind it.
pub proof fn law_search_goes_event_by_event<A, R, W, T>(
    kq: KqueueView<A, R, W, T>,
    events: Seq<KEvent>,
    next: int,
)
    requires
        0 <= next,
    ensures
        kq.covers_next(events, next) <==> next >= events.len() || (kq.covers(events[next]) && (
        kq.due(events[next]) is Some || kq.covers_next(events, next + 1))),
{
    if next < events.len() {
        let here = events[next];
        if kq.covers_next(events, next) && kq.due(here) is None {
            assert forall|i: int|
                next + 1 <= i < events.len() && (forall|j: int|
                    next + 1 <= j < i ==> kq.due(#[trigger] events[j]) is None) implies kq.covers(
                #[trigger] events[i],
            ) by {
                assert forall|j: int| next <= j < i implies kq.due(
                    #[trigger] events[j],
                ) is None by {
                    if j > next {
                        assert(kq.due(events[j]) is None);
                    }
                }
            }
        }
        if kq.covers(here) && (kq.due(here) is Some || kq.covers_next(events, next + 1)) {
            assert forall|i: int|
                next <= i < events.len() && (forall|j: int|
                    next <= j < i ==> kq.due(#[trigger] events[j]) is None) implies kq.covers(
                #[trigger] events[i],
            ) by {
                if i > next {
                    assert(kq.due(events[next]) is None);
                }
            }
        }
    }
}

/// A read event runs the callback in the slot of its descriptor, on that descriptor, and a timer
/// event the callback in the slot of its timer. An empty slot runs nothing, and no other event runs
/// a callback.
pub proof fn law_event_runs_what_its_slot_holds<A, R, W, T>(
    kq: KqueueView<A, R, W, T>,
    event: KEvent,
    fd: i32,
)
    requires
        fd == event_fd(event.ident),
        fd >= 0,
    ensures
        event.filter == Filter::Read ==> match kq.callbacks.read[fd as int] {
            Some(ReadEventType::ACCEPT(accept)) => kq.due(event) == Some::<Call<'_, A, R, T>>(
                Call::Accept { fd, callback: &accept },
            ),
            Some(ReadEventType::READ(read)) => kq.due(event) == Some::<Call<'_, A, R, T>>(
                Call::Read { fd, callback: &read },
            ),
            None => kq.due(event) is None,
        },
        event.filter == Filter::Timer ==> match kq.callbacks.timers[fd as int] {
            Some(timer) => kq.due(event) == Some::<Call<'_, A, R, T>>(
                Call::Timer { callback: &timer },
            ),
            None => kq.due(event) is None,
        },
        event.filter != Filter::Read && event.filter != Filter::Timer ==> kq.due(event) is None,
{
    law_ident_is_the_number(event.ident);
}

/// A verdict changes nothing but the slot of the callback that asks to be deleted, which is empty
/// afterwards.
pub proof fn law_verdict_empties_one_slot_at_most<A, R, W, T>(
    kq: KqueueView<A, R, W, T>,
    event: KEvent,
    fd: int,
    control: EventControl,
)
    requires
        fd == event_fd(event.ident),
        fd >= 0,
        kq.covers(event),
    ensures
        ({
            let after = kq.answered(event, control);
            &&& after.kqid == kq.kqid
            &&& after.next_timer == kq.next_timer
            &&& after.callbacks.write == kq.callbacks.write
            &&& after.callbacks.read.len() == kq.callbacks.read.len()
            &&& after.callbacks.timers.len() == kq.callbacks.timers.len()
            &&& forall|i: int|
                0 <= i < kq.callbacks.read.len() ==> #[trigger] after.callbacks.read[i] == if i
                    == fd && event.filter == Filter::Read && control == EventControl::DELETE {
                    None
                } else {
                    kq.callbacks.read[i]
                }
            &&& forall|i: int|
                0 <= i < kq.callbacks.timers.len() ==> #[trigger] after.callbacks.timers[i] == if i
                    == fd && event.filter == Filter::Timer && control == EventControl::DELETE {
                    None
                } else {
                    kq.callbacks.timers[i]
                }
        }),
{
    law_ident_is_the_number(event.ident);
}

/// A callback that asks to be kept leaves nothing to do. For one that asks to be deleted the kernel
/// queue is told to delete what it watched for it and nothing else, and a descriptor, but no timer,
/// is closed.
pub proof fn law_deleted_callback_is_released(event: KEvent, fd: i32)
    requires
        fd == event_fd(event.ident),
        fd >= 0,
    ensures
        release_of(event, EventControl::KEEP).change is None,
        release_of(event, EventControl::KEEP).close is None,
        release_of(event, EventControl::DELETE).change matches Some(change) && {
            &&& change.ident == fd
            &&& change.filter == event.filter
            &&& change.flags.delete
            &&& !change.flags.add && !change.flags.enable && !change.flags.clear
            &&& !change.trigger
            &&& change.data == 0
        },
        event.filter == Filter::Read ==> release_of(event, EventControl::DELETE).close == Some(fd),
        event.filter != Filter::Read ==> release_of(event, EventControl::DELETE).close is None,
{
    law_ident_is_the_number(event.ident);
}

} // verus!
