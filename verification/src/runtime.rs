//! Events and re-entrant locks.
//!
//! Each is the state behind a lock: whoever holds it exclusively performs one step at a time,
//! and what has to wait is told so.

use vstd::prelude::*;

verus! {

/// A flag that threads wait for.
#[derive(Clone, Copy, Debug, PartialEq, Eq, Structural)]
pub struct EventState {
    pub is_set: bool,
}

impl EventState {
    /// An event that is not set.
    pub fn new() -> (r: Self)
        ensures
            !r.is_set,
    {
        EventState { is_set: false }
    }

    /// Sets the event: all that wait for it go on.
    pub fn set(&mut self)
        ensures
            final(self).is_set,
    {
        self.is_set = true;
    }

    /// Takes the event back.
    pub fn clear(&mut self)
        ensures
            !final(self).is_set,
    {
        self.is_set = false;
    }

    /// Whether one that waits for the event may go on.
    pub fn may_proceed(&self) -> (r: bool)
        ensures
            r == self.is_set,
    {
        self.is_set
    }
}

/// A lock that its owner may take again. Threads are given by number.
#[derive(Clone, Copy, Debug, PartialEq, Eq, Structural)]
pub struct ReentrantLockState {
    pub owner: Option<u64>,
    pub recursion: usize,
}

impl ReentrantLockState {
    /// Whether the lock has an owner exactly while it is held.
    pub open spec fn wf(self) -> bool {
        self.owner is Some <==> self.recursion > 0
    }

    /// Whether `thread` may take the lock.
    pub open spec fn is_open_to(self, thread: u64) -> bool {
        self.owner is None || self.owner == Some(thread)
    }

    /// The lock after `thread` took it.
    pub open spec fn taken_by(self, thread: u64) -> ReentrantLockState {
        ReentrantLockState { owner: Some(thread), recursion: (self.recursion + 1) as usize }
    }

    /// The lock after its owner gave it back once.
    pub open spec fn given_back(self) -> ReentrantLockState {
        ReentrantLockState {
            owner: if self.recursion == 1 {
                None
            } else {
                self.owner
            },
            recursion: (self.recursion - 1) as usize,
        }
    }

    /// A lock that nobody holds.
    pub fn new() -> (r: Self)
        ensures
            r == (ReentrantLockState { owner: None, recursion: 0 }),
    {
        ReentrantLockState { owner: None, recursion: 0 }
    }

    /// Takes the lock for `thread` and returns true, unless another thread holds it.
    pub fn acquire(&mut self, thread: u64) -> (r: bool)
        requires
            old(self).wf(),
            old(self).recursion < usize::MAX,
        ensures
            r == old(self).is_open_to(thread),
            *final(self) == (if r {
                old(self).taken_by(thread)
            } else {
                *old(self)
            }),
    {
        match self.owner {
            Some(owner) => if owner != thread {
                return false;
            },
            None => {},
        }
        self.owner = Some(thread);
        self.recursion = self.recursion + 1;
        true
    }

    /// Gives the lock back once; an error if `thread` does not hold it. Says whether it is free
    /// now, so that one that waits may go on.
    pub fn release(&mut self, thread: u64) -> (r: Result<bool, &'static str>)
        requires
            old(self).wf(),
        ensures
            match r {
                Ok(free) => {
                    &&& old(self).owner == Some(thread)
                    &&& *final(self) == old(self).given_back()
                    &&& free == (final(self).owner is None)
                },
                Err(message) => {
                    &&& old(self).owner != Some(thread)
                    &&& *final(self) == *old(self)
                    &&& message@ == "cannot release un-acquired re-entrant lock"@
                },
            },
    {
        let held = match self.owner {
            Some(owner) => owner == thread,
            None => false,
        };
        if !held || self.recursion == 0 {
            return Err("cannot release un-acquired re-entrant lock");
        }
        self.recursion = self.recursion - 1;
        if self.recursion == 0 {
            self.owner = None;
            Ok(true)
        } else {
            Ok(false)
        }
    }
}

/// Giving a lock back undoes taking it.
pub proof fn law_release_undoes_acquire(lock: ReentrantLockState, thread: u64)
    requires
        lock.wf(),
        lock.is_open_to(thread),
        lock.recursion < usize::MAX,
    ensures
        lock.taken_by(thread).wf(),
        lock.taken_by(thread).given_back() == lock,
{
}

/// While one thread holds a lock no other may take it.
pub proof fn law_lock_excludes_others(lock: ReentrantLockState, thread: u64, other: u64)
    requires
        thread != other,
    ensures
        !lock.taken_by(thread).is_open_to(other),
{
}

/// A lock may be taken by its owner and, while it has none, by anyone. Each taking counts, and
/// the lock is free again when as many were given back.
pub proof fn law_locks_count_their_takings(lock: ReentrantLockState, thread: u64)
    requires
        lock.recursion < usize::MAX,
    ensures
        lock.is_open_to(thread) <==> match lock.owner {
            Some(owner) => owner == thread,
            None => true,
        },
        lock.taken_by(thread).owner == Some(thread),
        lock.taken_by(thread).recursion == lock.recursion + 1,
        lock.recursion == 1 ==> lock.given_back().owner is None && lock.given_back().recursion == 0,
        lock.recursion > 1 ==> lock.given_back().owner == lock.owner
            && lock.given_back().recursion == lock.recursion - 1,
{
}

} // verus!
