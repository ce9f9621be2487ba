//! Sets of descriptors, of the size that `select` works with.
use vstd::prelude::*;

verus! {

/// The number of descriptors that a set can tell apart.
pub const FD_SETSIZE: usize = 1024;

/// A set of descriptors below [`FD_SETSIZE`].
#[derive(Clone, Copy)]
pub struct FdSet {
    bits: [bool; 1024],
}

impl View for FdSet {
    type V = Set<int>;

    closed spec fn view(&self) -> Set<int> {
        Set::new(|fd: int| 0 <= fd < FD_SETSIZE && self.bits[fd])
    }
}

impl FdSet {
    /// Every member of a set is a descriptor below [`FD_SETSIZE`].
    pub proof fn law_members_are_bounded(self)
        ensures
            forall|fd: int| #[trigger] self@.contains(fd) ==> 0 <= fd < FD_SETSIZE,
    {
    }

    /// The empty set.
    pub fn new() -> (set: FdSet)
        ensures
            set@ == Set::<int>::empty(),
    {
        FdSet { bits: [false; 1024] }
    }

    /// Puts `fd` into the set.
    pub fn insert(&mut self, fd: usize)
        requires
            fd < FD_SETSIZE,
        ensures
            final(self)@ == old(self)@.insert(fd as int),
    {
        self.bits[fd] = true;
    }

    /// Takes `fd` out of the set.
    pub fn remove(&mut self, fd: usize)
        requires
            fd < FD_SETSIZE,
        ensures
            final(self)@ == old(self)@.remove(fd as int),
    {
        self.bits[fd] = false;
    }

    /// Whether `fd` is in the set.
    pub fn contains(&self, fd: usize) -> (member: bool)
        ensures
            member == self@.contains(fd as int),
    {
        fd < FD_SETSIZE && self.bits[fd]
    }
}

} // verus!
