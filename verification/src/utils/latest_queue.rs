//! A value with a flag that says whether it is to be looked at again.
//!
//! The queue is the state behind a lock: whoever holds it exclusively performs one step at a
//! time.

use vstd::prelude::*;

verus! {

/// The newest value, kept after it was read, and a flag that wakes its reader.
#[derive(Debug)]
pub struct LatestValueQueue<T> {
    value: Option<T>,
    event: bool,
}

impl<T> LatestValueQueue<T> {
    /// The newest value.
    pub closed spec fn value(&self) -> Option<T> {
        self.value
    }

    /// Whether the reader is to wake.
    pub closed spec fn is_signalled(&self) -> bool {
        self.event
    }

    /// A queue without a value.
    pub fn new() -> (r: Self)
        ensures
            r.value() is None,
            !r.is_signalled(),
    {
        LatestValueQueue { value: None, event: false }
    }

    /// Replaces the value and wakes the reader.
    pub fn put(&mut self, item: T)
        ensures
            final(self).value() == Some(item),
            final(self).is_signalled(),
    {
        self.value = Some(item);
        self.event = true;
    }

    /// Whether the reader may go on; if not, it has to wait for a change.
    pub fn is_ready(&self) -> (r: bool)
        ensures
            r == self.is_signalled(),
    {
        self.event
    }

    /// Reads the value and takes the signal back; the value stays.
    pub fn get_with<R, F: FnOnce(Option<&T>) -> R>(&mut self, read: F) -> (r: R)
        requires
            call_requires(
                read,
                (match old(self).value() {
                    Some(value) => Some(&value),
                    None => None,
                },),
            ),
        ensures
            final(self).value() == old(self).value(),
            !final(self).is_signalled(),
            call_ensures(
                read,
                (match old(self).value() {
                    Some(value) => Some(&value),
                    None => None,
                },),
                r,
            ),
    {
        let result = read(self.value.as_ref());
        self.event = false;
        result
    }

    /// Wakes the reader and keeps the value.
    pub fn trigger(&mut self)
        ensures
            final(self).value() == old(self).value(),
            final(self).is_signalled(),
    {
        self.event = true;
    }
}

} // verus!
