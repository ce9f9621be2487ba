//! Event records and the verdict that a callback gives on its event.
use vstd::prelude::*;

verus! {

/// What a callback asks for once it has run.
///
/// `KEEP` leaves the event registered, so that the callback runs again when the event recurs.
/// `DELETE` takes the event out of the loop.
#[derive(Clone, Copy, Debug, PartialEq, Eq, Structural)]
pub enum EventControl {
    KEEP,
    DELETE,
}

/// The source that an event record speaks of.
#[derive(Clone, Copy, Debug, PartialEq, Eq, Structural)]
pub enum Filter {
    /// A descriptor can be read or accepted from.
    Read,
    /// A descriptor can be written to.
    Write,
    /// A timer has expired.
    Timer,
    /// The loop was woken up by hand.
    User,
    /// Any other source, by the number that the system gives it.
    Other(i16),
}

/// What the kernel is asked to do with an event record.
#[derive(Clone, Copy, Debug, PartialEq, Eq, Structural)]
pub struct Flags {
    pub add: bool,
    pub delete: bool,
    pub enable: bool,
    pub clear: bool,
}

/// An event record, as handed to the kernel queue and as got back from it.
#[derive(Clone, Copy, Debug, PartialEq, Eq, Structural)]
pub struct KEvent {
    /// The descriptor or timer that the record is about.
    pub ident: usize,
    pub filter: Filter,
    pub flags: Flags,
    /// Whether a `User` record wakes the loop.
    pub trigger: bool,
    /// The period in milliseconds, for a timer.
    pub data: isize,
}

impl KEvent {
    /// The record that adds `filter` on `ident`.
    pub open spec fn addition(ident: usize, filter: Filter) -> KEvent {
        KEvent {
            ident,
            filter,
            flags: Flags { add: true, delete: false, enable: false, clear: false },
            trigger: false,
            data: 0,
        }
    }

    /// The record that removes `filter` from `ident`.
    pub open spec fn deletion(ident: usize, filter: Filter) -> KEvent {
        KEvent {
            ident,
            filter,
            flags: Flags { add: false, delete: true, enable: false, clear: false },
            trigger: false,
            data: 0,
        }
    }

    /// The record that starts timer `ident` with the given period.
    pub open spec fn timer(ident: usize, period: isize) -> KEvent {
        KEvent {
            ident,
            filter: Filter::Timer,
            flags: Flags { add: true, delete: false, enable: true, clear: false },
            trigger: false,
            data: period,
        }
    }

    /// The record that makes the queue listen for wake-ups.
    pub open spec fn wake_slot() -> KEvent {
        KEvent {
            ident: 0,
            filter: Filter::User,
            flags: Flags { add: true, delete: false, enable: false, clear: true },
            trigger: false,
            data: 0,
        }
    }

    /// The record that wakes the queue up.
    pub open spec fn wake_up() -> KEvent {
        KEvent {
            ident: 0,
            filter: Filter::User,
            flags: Flags { add: false, delete: false, enable: false, clear: false },
            trigger: true,
            data: 0,
        }
    }

    /// Makes the record that wakes the queue up.
    pub fn new_wake_up() -> (change: KEvent)
        ensures
            change == KEvent::wake_up(),
    {
        KEvent {
            ident: 0,
            filter: Filter::User,
            flags: Flags { add: false, delete: false, enable: false, clear: false },
            trigger: true,
            data: 0,
        }
    }
}

/// The records that add, remove and start something say so of the source that they are given, and
/// ask for nothing else. A timer carries its period.
pub proof fn law_records_ask_for_one_thing(ident: usize, filter: Filter, period: isize)
    ensures
        ({
            let added = KEvent::addition(ident, filter);
            &&& (added.ident, added.filter) == (ident, filter)
            &&& added.flags.add && !added.flags.delete
            &&& !added.flags.enable && !added.flags.clear && !added.trigger && added.data == 0
        }),
        ({
            let removed = KEvent::deletion(ident, filter);
            &&& (removed.ident, removed.filter) == (ident, filter)
            &&& removed.flags.delete && !removed.flags.add
            &&& !removed.flags.enable && !removed.flags.clear && !removed.trigger
            &&& removed.data == 0
        }),
        ({
            let started = KEvent::timer(ident, period);
            &&& (started.ident, started.filter) == (ident, Filter::Timer)
            &&& started.flags.add && started.flags.enable
            &&& !started.flags.delete && !started.flags.clear && !started.trigger
            &&& started.data == period
        }),
{
}

/// The record that wakes the queue up triggers the source that the queue was made to listen for,
/// and registers nothing. That source is reset each time that it is reported.
pub proof fn law_wake_up_meets_its_slot()
    ensures
        KEvent::wake_up().ident == KEvent::wake_slot().ident == 0,
        KEvent::wake_up().filter == KEvent::wake_slot().filter,
        KEvent::wake_up().filter == Filter::User,
        KEvent::wake_up().trigger && !KEvent::wake_slot().trigger,
        KEvent::wake_slot().flags.add && KEvent::wake_slot().flags.clear,
        !KEvent::wake_slot().flags.delete && !KEvent::wake_slot().flags.enable,
        !KEvent::wake_up().flags.add && !KEvent::wake_up().flags.delete,
        !KEvent::wake_up().flags.enable && !KEvent::wake_up().flags.clear,
        KEvent::wake_up().data == KEvent::wake_slot().data == 0,
{
}

} // verus!
