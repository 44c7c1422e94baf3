//! Ownership bookkeeping of the session lock.
//!
//! One lock, two ways in: a reentrant acquisition that lets the owning thread
//! nest, and a "try once" acquisition that refuses, without waiting, when the
//! calling thread already holds the lock. Waiting for another thread is left to
//! the caller: every operation here answers at once.

use vstd::prelude::*;

verus! {

/// What an attempt to take the lock came to.
#[derive(Clone, Copy, PartialEq, Eq, Structural, Debug)]
pub enum Acquire {
    /// The calling thread holds the lock (once more).
    Granted,
    /// Another thread holds the lock: wait and try again.
    Busy,
    /// The calling thread already holds the lock and asked not to nest.
    Recursive,
    /// The calling thread holds the lock at the deepest nesting counted.
    TooDeep,
}

/// Which thread holds the lock, and how many times it took it.
pub struct ReentrantMutex {
    owner: Option<u32>,
    lock_count: u32,
}

impl ReentrantMutex {
    #[verifier::type_invariant]
    spec fn inv(self) -> bool {
        self.owner is None <==> self.lock_count == 0
    }

    /// The thread that holds the lock, if any.
    pub closed spec fn spec_owner(&self) -> Option<u32> {
        self.owner
    }

    /// How many acquisitions of the owner are not yet released.
    pub closed spec fn depth(&self) -> nat {
        self.lock_count as nat
    }

    /// A lock that nobody holds.
    pub fn new() -> (r: ReentrantMutex)
        ensures
            r.spec_owner() is None,
            r.depth() == 0,
    {
        ReentrantMutex { owner: None, lock_count: 0 }
    }

    /// The thread that holds the lock, if any.
    pub fn owner(&self) -> (r: Option<u32>)
        ensures
            r == self.spec_owner(),
            r is None <==> self.depth() == 0,
    {
        proof {
            use_type_invariant(self);
        }
        self.owner
    }

    /// Reentrant acquisition by `thread`: granted when the lock is free or
    /// already held by `thread` (one level deeper); `Busy` when another thread
    /// holds it. Nothing changes unless it is granted.
    pub fn lock(&mut self, thread: u32) -> (r: Acquire)
        ensures
            old(self).spec_owner() is None ==> r == Acquire::Granted && final(self).spec_owner()
                == Some(thread) && final(self).depth() == 1,
            old(self).spec_owner() == Some(thread) && old(self).depth() < u32::MAX ==> r
                == Acquire::Granted && final(self).spec_owner() == Some(thread)
                && final(self).depth() == old(self).depth() + 1,
            old(self).spec_owner() == Some(thread) && old(self).depth() == u32::MAX ==> r
                == Acquire::TooDeep,
            old(self).spec_owner() is Some && old(self).spec_owner() != Some(thread) ==> r
                == Acquire::Busy,
            r != Acquire::Granted ==> *final(self) == *old(self),
            r != Acquire::Recursive,
            old(self).spec_owner() is None <==> old(self).depth() == 0,
    {
        proof {
            use_type_invariant(&*self);
        }
        match self.owner {
            None => {
                *self = ReentrantMutex { owner: Some(thread), lock_count: 1 };
                Acquire::Granted
            },
            Some(t) => {
                if t != thread {
                    Acquire::Busy
                } else if self.lock_count == u32::MAX {
                    Acquire::TooDeep
                } else {
                    self.lock_count = self.lock_count + 1;
                    Acquire::Granted
                }
            },
        }
    }

    /// Non-reentrant acquisition by `thread`: granted only when the lock is
    /// free; `Recursive` when `thread` already holds it, `Busy` when another
    /// thread does. Nothing changes unless it is granted.
    pub fn lock_no_recurse(&mut self, thread: u32) -> (r: Acquire)
        ensures
            old(self).spec_owner() is None ==> r == Acquire::Granted && final(self).spec_owner()
                == Some(thread) && final(self).depth() == 1,
            old(self).spec_owner() == Some(thread) ==> r == Acquire::Recursive,
            old(self).spec_owner() is Some && old(self).spec_owner() != Some(thread) ==> r
                == Acquire::Busy,
            r != Acquire::Granted ==> *final(self) == *old(self),
            r != Acquire::TooDeep,
            old(self).spec_owner() is None <==> old(self).depth() == 0,
    {
        proof {
            use_type_invariant(&*self);
        }
        match self.owner {
            None => {
                *self = ReentrantMutex { owner: Some(thread), lock_count: 1 };
                Acquire::Granted
            },
            Some(t) => {
                if t != thread {
                    Acquire::Busy
                } else {
                    Acquire::Recursive
                }
            },
        }
    }

    /// Releases one acquisition by the owning `thread`; the lock is free again
    /// once the outermost one is released.
    pub fn unlock(&mut self, thread: u32)
        requires
            old(self).spec_owner() == Some(thread),
        ensures
            old(self).depth() == 1 ==> final(self).spec_owner() is None && final(self).depth() == 0,
            old(self).depth() > 1 ==> final(self).spec_owner() == Some(thread) && final(self).depth()
                == old(self).depth() - 1,
    {
        proof {
            use_type_invariant(&*self);
        }
        if self.lock_count == 1 {
            *self = ReentrantMutex { owner: None, lock_count: 0 };
        } else {
            self.lock_count = self.lock_count - 1;
        }
    }
}

} // verus!
