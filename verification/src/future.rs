//! A one-shot flag that one thread waits for and another thread raises.
//!
//! The flag lies behind a mutex that several threads share, so no contract can speak of the value
//! that it has at a given moment. The contracts speak of the whole life of the mutex instead: the
//! value that it starts with, and whether it is ever set to `true`. Nothing in this module stores
//! `false` behind a mutex that exists already, so a flag that is raised stays raised.
//!
//! A handle on the flag remembers, for the contracts alone, whether the flag was raised through it
//! or through a handle that it is a clone of. What other handles do is not seen there.
//!
//! Only [`Future::set`] raises a flag. The clause `opens_invariants` keeps track of that: the store
//! stands under `any`, and a function under `none` can neither make the store nor call a function
//! that may. So [`Future::get`], which is under `none`, waits for a flag that others raise.
use std::sync::{Arc, Condvar, Mutex, MutexGuard};
use vstd::prelude::*;

verus! {

/// [`Mutex`], as an opaque value: one value stands for one mutex, not for what it protects.
#[verifier::external_type_specification]
#[verifier::external_body]
#[verifier::reject_recursive_types(T)]
pub struct ExMutex<T: ?Sized>(Mutex<T>);

/// [`Condvar`], as an opaque value.
#[verifier::external_type_specification]
#[verifier::external_body]
pub struct ExCondvar(Condvar);

/// [`MutexGuard`], as an opaque value.
#[verifier::external_type_specification]
#[verifier::external_body]
#[verifier::reject_recursive_types(T)]
pub struct ExMutexGuard<'a, T: ?Sized + 'a>(MutexGuard<'a, T>);

/// The value that a mutex is made with.
pub uninterp spec fn initial(flag: Mutex<bool>) -> bool;

/// Whether `true` is stored behind a mutex at any time in its life, after it was made.
pub uninterp spec fn raised(flag: Mutex<bool>) -> bool;

/// Whether a condition variable is signalled, with a mutex locked, at any time after `true` was
/// stored behind that mutex.
pub uninterp spec fn notified(flag: Mutex<bool>, condvar: Condvar) -> bool;

/// Whether a wait on a condition variable, until what a mutex protects is `true`, comes to an end
/// at any time with what it waited for.
pub uninterp spec fn awaited(flag: Mutex<bool>, condvar: Condvar) -> bool;

/// Whether a thread panics with a mutex locked, at any time in the life of the mutex.
pub uninterp spec fn poisoned(flag: Mutex<bool>) -> bool;

/// The mutex that a guard locks.
pub uninterp spec fn locked(guard: MutexGuard<'_, bool>) -> Mutex<bool>;

/// Whether nothing has been stored through a guard.
pub uninterp spec fn untouched(guard: MutexGuard<'_, bool>) -> bool;

/// [`Mutex::new`] makes a mutex that protects `value`.
#[verifier::external_body]
fn new_mutex(value: bool) -> (flag: Mutex<bool>)
    ensures
        initial(flag) == value,
{
    Mutex::new(value)
}

/// [`Condvar::new`] makes a condition variable. Nothing is claimed of it.
pub assume_specification[ Condvar::new ]() -> Condvar;

/// [`Mutex::lock`] locks the mutex, once no other thread holds it, and gives a new guard. A mutex
/// that a thread has poisoned by a panic is locked all the same. A thread that holds the mutex
/// already must not call this: each function below takes the lock once and gives it up when it
/// returns.
#[verifier::external_body]
fn lock(flag: &Mutex<bool>) -> (guard: MutexGuard<'_, bool>)
    ensures
        locked(guard) == *flag,
        untouched(guard),
    opens_invariants none
{
    match flag.lock() {
        Ok(guard) => guard,
        Err(error) => error.into_inner(),
    }
}

/// A store through [`MutexGuard`] changes what its mutex protects. Here it is always `true` that is
/// stored. The guard locks the same mutex as before.
#[verifier::external_body]
fn raise(guard: &mut MutexGuard<'_, bool>, value: bool)
    requires
        value,
    ensures
        locked(*final(guard)) == locked(*old(guard)),
        raised(locked(*final(guard))),
    opens_invariants any
{
    **guard = value;
}

/// [`Condvar::notify_one`] wakes up one of the threads that wait on the condition variable beside
/// the locked mutex, if there is one. The guard comes back as it was: the mutex stays locked over
/// the call. Which thread wakes up, and when it goes on, is not claimed.
#[verifier::external_body]
fn notify<'a>(cell: &(Mutex<bool>, Condvar), guard: MutexGuard<'a, bool>) -> (kept: MutexGuard<
    'a,
    bool,
>)
    requires
        locked(guard) == cell.0,
        raised(locked(guard)),
    ensures
        locked(kept) == locked(guard),
        notified(locked(kept), cell.1),
{
    cell.1.notify_one();
    guard
}

/// Whether a waiting thread has to go on waiting.
fn pending(flag: &mut bool) -> (waiting: bool)
    ensures
        waiting == !*old(flag),
        *final(flag) == *old(flag),
{
    !*flag
}

/// [`Condvar::wait_while`] waits on the condition variable beside the locked mutex. It returns
/// `Ok`, with the mutex locked again, at a moment at which the condition that it was given, here
/// [`pending`], is false: the flag is `true` at that moment, so it started as `true` or was set to
/// `true`. It returns `Err`, with the mutex locked again, where it wakes up to find that a thread
/// has panicked with the mutex locked. Nothing is claimed of the flag then, nor that the call
/// returns at all. The guard is one through which nothing has been stored: a waiting thread is not
/// to bring about itself what it waits for.
#[verifier::external_body]
fn wait_until_raised<'a>(cell: &(Mutex<bool>, Condvar), guard: MutexGuard<'a, bool>) -> (relocked:
    Result<MutexGuard<'a, bool>, MutexGuard<'a, bool>>)
    requires
        locked(guard) == cell.0,
        untouched(guard),
    ensures
        relocked matches Ok(kept) ==> {
            &&& locked(kept) == locked(guard)
            &&& initial(locked(kept)) || raised(locked(kept))
            &&& awaited(locked(kept), cell.1)
        },
        relocked matches Err(kept) ==> {
            &&& locked(kept) == locked(guard)
            &&& poisoned(locked(kept))
        },
    opens_invariants none
{
    match cell.1.wait_while(guard, |flag| pending(flag)) {
        Ok(guard) => Ok(guard),
        Err(error) => Err(error.into_inner()),
    }
}

/// [`Arc::clone`] gives another pointer to the same mutex and condition variable.
#[verifier::external_body]
fn share(cell: &Arc<(Mutex<bool>, Condvar)>) -> (shared: Arc<(Mutex<bool>, Condvar)>)
    ensures
        shared == *cell,
{
    cell.clone()
}

/// A flag that starts lowered. Clones share the flag.
pub struct Future {
    condvar: Arc<(Mutex<bool>, Condvar)>,
    used: Ghost<bool>,
}

impl Future {
    #[verifier::type_invariant]
    spec fn inv(self) -> bool {
        &&& !initial(self.condvar.0)
        &&& self.used@ ==> raised(self.condvar.0) && notified(self.condvar.0, self.condvar.1)
    }

    /// Whether the future was set through this handle or, before it was cloned from another one,
    /// through that one.
    pub closed spec fn set_here(self) -> bool {
        self.used@
    }

    /// The mutex that protects the flag, and the condition variable that a waiting thread waits on.
    pub closed spec fn cell(self) -> (Mutex<bool>, Condvar) {
        *self.condvar
    }

    /// The mutex that protects the flag.
    pub open spec fn flag(self) -> Mutex<bool> {
        self.cell().0
    }

    /// Whether the flag is raised and a thread that waits for it is told so.
    pub open spec fn released(self) -> bool {
        raised(self.flag()) && notified(self.flag(), self.cell().1)
    }

    /// A future that is not set.
    pub fn new() -> (future: Future)
        ensures
            !initial(future.flag()),
            !future.set_here(),
    {
        Future { condvar: Arc::new((new_mutex(false), Condvar::new())), used: Ghost(false) }
    }

    /// Waits until the future is set, by this handle or by a clone of it. The future stays set.
    /// Where a thread panics with the flag locked, the wait may end without that.
    pub fn get(self)
        ensures
            poisoned(self.flag()) || (raised(self.flag()) && awaited(
                self.flag(),
                self.cell().1,
            )),
        opens_invariants none
    {
        proof {
            use_type_invariant(&self);
        }
        let cell = &*self.condvar;
        let started = lock(&cell.0);
        let _started = wait_until_raised(cell, started);
    }

    /// Sets the future, for good, and wakes up a thread that waits for it. To set it again changes
    /// nothing.
    pub fn set(&mut self)
        ensures
            final(self).cell() == old(self).cell(),
            final(self).set_here(),
            final(self).released(),
            raised(final(self).flag()),
            notified(final(self).flag(), final(self).cell().1),
            old(self).set_here() ==> *final(self) == *old(self),
        opens_invariants any
    {
        proof {
            use_type_invariant(&*self);
        }
        let cell = &*self.condvar;
        let mut started = lock(&cell.0);
        raise(&mut started, true);
        let _started = notify(cell, started);
        self.used = Ghost(true);
    }
}

impl Clone for Future {
    /// Another handle on the same flag, which is set just if this one is.
    fn clone(&self) -> (copy: Future)
        ensures
            copy == *self,
            copy.cell() == self.cell(),
            copy.set_here() == self.set_here(),
            self.set_here() ==> copy.released(),
    {
        proof {
            use_type_invariant(self);
        }
        Future { condvar: share(&self.condvar), used: Ghost(self.used@) }
    }
}

/// What makes one handle on a flag out of another.
pub enum HandleOp {
    /// A call of `clone`.
    Cloned,
    /// A call of [`Future::set`].
    Released,
}

/// Whether `op` makes the handle `after` out of the handle `before`.
pub open spec fn makes(before: Future, op: HandleOp, after: Future) -> bool {
    match op {
        HandleOp::Cloned => after == before,
        HandleOp::Released => {
            &&& after.cell() == before.cell()
            &&& after.set_here()
            &&& after.released()
        },
    }
}

/// Whether each of `handles` but the first is made out of the one before it: `handles[i + 1]` out
/// of `handles[i]` by `ops[i]`.
pub open spec fn descend(handles: Seq<Future>, ops: Seq<HandleOp>) -> bool {
    &&& handles.len() == ops.len() + 1
    &&& forall|i: int| 0 <= i < ops.len() ==> makes(handles[i], #[trigger] ops[i], handles[i + 1])
}

/// However a handle is cloned and set, the flag stays the same one. As far as these calls go, a
/// handle is set if, and only if, it was so at first or one of them was a set: cloning sets
/// nothing.
pub proof fn law_unset_until_set(handles: Seq<Future>, ops: Seq<HandleOp>, at: int)
    requires
        descend(handles, ops),
        0 <= at < handles.len(),
    ensures
        handles[at].cell() == handles[0].cell(),
        handles[at].set_here() <==> handles[0].set_here() || exists|i: int|
            0 <= i < at && #[trigger] ops[i] is Released,
    decreases at,
{
    if at > 0 {
        law_unset_until_set(handles, ops, at - 1);
        assert(makes(handles[at - 1], ops[at - 1], handles[at]));
    }
}

/// A handle that is set stays set, however it is cloned and set afterwards, and a thread that waits
/// on any handle made out of it is told so.
pub proof fn law_set_stays_set(handles: Seq<Future>, ops: Seq<HandleOp>, from: int, to: int)
    requires
        descend(handles, ops),
        0 <= from <= to < handles.len(),
        handles[from].set_here(),
        handles[from].released(),
    ensures
        handles[to].set_here(),
        handles[to].released(),
    decreases to - from,
{
    if from < to {
        law_set_stays_set(handles, ops, from, to - 1);
        assert(makes(handles[to - 1], ops[to - 1], handles[to]));
    }
}

/// Clones are set together, and a signal for one is a signal for the other: both wait on the same
/// condition variable for the same flag.
pub proof fn law_clones_are_released_together(future: Future, copy: Future)
    requires
        copy.cell() == future.cell(),
    ensures
        copy.released() == future.released(),
        raised(copy.flag()) == raised(future.flag()),
{
}

/// A future is released just if its flag is raised and the condition variable that a thread waits
/// on for that flag is signalled.
pub proof fn law_released_is_raised_and_notified(future: Future)
    ensures
        future.flag() == future.cell().0,
        future.released() <==> raised(future.cell().0) && notified(
            future.cell().0,
            future.cell().1,
        ),
{
}

} // verus!
