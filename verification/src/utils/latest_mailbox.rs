//! A mailbox that keeps only the newest value.
//!
//! The mailbox is the state behind a lock: whoever holds it exclusively performs one step at a
//! time, and what has to wait is told so.

use vstd::prelude::*;

verus! {

/// A value received from a mailbox, with its number in the order of acceptance.
#[derive(Debug, PartialEq, Eq)]
pub struct MailboxItem<T> {
    pub version: u64,
    pub value: T,
}

/// The value that a closed mailbox did not accept.
#[derive(Debug, PartialEq, Eq)]
pub struct SendError<T>(pub T);

/// Why nothing was received without waiting.
#[derive(Clone, Copy, Debug, PartialEq, Eq, Structural)]
pub enum TryRecvError {
    Empty,
    Closed,
}

/// Why nothing was received within a time.
#[derive(Clone, Copy, Debug, PartialEq, Eq, Structural)]
pub enum RecvTimeoutError {
    Timeout,
    Closed,
}

/// What a receiver is to do.
#[derive(Debug, PartialEq, Eq)]
pub enum Receipt<T> {
    /// Take this value.
    Item(MailboxItem<T>),
    /// Give up: the mailbox is closed.
    Closed,
    /// Give up: the time is over.
    Timeout,
    /// Wait for a change.
    Wait,
}

/// A mailbox with at most one pending value. A new value replaces a pending one.
#[derive(Debug)]
pub struct LatestMailbox<T> {
    pending: Option<MailboxItem<T>>,
    version: u64,
    closed: bool,
}

/// The state of a mailbox: the value that waits to be received, the number of the value accepted
/// last, and whether the mailbox is closed.
pub struct MailboxView<T> {
    pub pending: Option<MailboxItem<T>>,
    pub version: u64,
    pub closed: bool,
}

impl<T> MailboxView<T> {
    /// The state without a pending value.
    pub open spec fn emptied(self) -> MailboxView<T> {
        MailboxView { pending: None, ..self }
    }

    /// The state after `value` was sent.
    pub open spec fn after_send(self, value: T) -> MailboxView<T> {
        if self.closed {
            self
        } else {
            let version = if self.version == u64::MAX {
                0
            } else {
                (self.version + 1) as u64
            };
            MailboxView {
                pending: Some(MailboxItem { version, value }),
                version,
                closed: false,
            }
        }
    }

    /// The value that waits to be received.
    pub open spec fn waiting(self) -> Option<T> {
        match self.pending {
            Some(item) => Some(item.value),
            None => None,
        }
    }

    /// The state after the mailbox was closed.
    pub open spec fn after_close(self) -> MailboxView<T> {
        MailboxView { pending: None, version: self.version, closed: true }
    }

    /// What a receiver is to do when its time is, or is not, over.
    pub open spec fn receipt(self, expired: bool) -> Receipt<T> {
        if self.closed {
            Receipt::Closed
        } else {
            match self.pending {
                Some(item) => Receipt::Item(item),
                None => if expired {
                    Receipt::Timeout
                } else {
                    Receipt::Wait
                },
            }
        }
    }

    /// Whether a closed mailbox is empty.
    pub open spec fn wf(self) -> bool {
        self.closed ==> self.pending is None
    }
}

impl<T> View for LatestMailbox<T> {
    type V = MailboxView<T>;

    closed spec fn view(&self) -> MailboxView<T> {
        MailboxView { pending: self.pending, version: self.version, closed: self.closed }
    }
}

impl<T> LatestMailbox<T> {
    /// An empty, open mailbox.
    pub fn new() -> (r: Self)
        ensures
            r@ == (MailboxView::<T> { pending: None, version: 0, closed: false }),
    {
        LatestMailbox { pending: None, version: 0, closed: false }
    }

    /// Stores `value` and returns the pending value that it replaces. A closed mailbox stays as
    /// it is and gives the value back.
    pub fn send_replace(&mut self, value: T) -> (r: Result<Option<T>, SendError<T>>)
        ensures
            final(self)@ == old(self)@.after_send(value),
            r == (if old(self)@.closed {
                Err(SendError(value))
            } else {
                Ok(old(self)@.waiting())
            }),
    {
        if self.closed {
            return Err(SendError(value));
        }
        self.version = self.version.wrapping_add(1);
        let version: u64 = self.version;
        let replaced = self.pending.take();
        self.pending = Some(MailboxItem { version, value });
        Ok(
            match replaced {
                Some(item) => Some(item.value),
                None => None,
            },
        )
    }

    /// What a receiver is to do, where `expired` says whether its time is over. A value that it
    /// is to take is removed.
    pub fn receive_step(&mut self, expired: bool) -> (r: Receipt<T>)
        requires
            old(self)@.wf(),
        ensures
            final(self)@ == old(self)@.emptied(),
            r == old(self)@.receipt(expired),
    {
        if self.closed {
            return Receipt::Closed;
        }
        match self.pending.take() {
            Some(item) => Receipt::Item(item),
            None => if expired {
                Receipt::Timeout
            } else {
                Receipt::Wait
            },
        }
    }

    /// Removes the newest pending value; a closed mailbox has none. An open mailbox has to have
    /// one: with exclusive access none can arrive.
    pub fn recv_latest(&mut self) -> (r: Option<MailboxItem<T>>)
        requires
            old(self)@.wf(),
            old(self)@.closed || old(self)@.pending is Some,
        ensures
            final(self)@ == old(self)@.emptied(),
            r == old(self)@.pending,
    {
        match self.receive_step(false) {
            Receipt::Item(item) => Some(item),
            _ => None,
        }
    }

    /// Removes the newest pending value without waiting.
    pub fn try_recv_latest(&mut self) -> (r: Result<MailboxItem<T>, TryRecvError>)
        requires
            old(self)@.wf(),
        ensures
            final(self)@ == old(self)@.emptied(),
            r == (if old(self)@.closed {
                Err(TryRecvError::Closed)
            } else {
                match old(self)@.pending {
                    Some(item) => Ok(item),
                    None => Err(TryRecvError::Empty),
                }
            }),
    {
        match self.receive_step(true) {
            Receipt::Item(item) => Ok(item),
            Receipt::Closed => Err(TryRecvError::Closed),
            _ => Err(TryRecvError::Empty),
        }
    }

    /// Removes the newest pending value. With exclusive access none can arrive while it waits,
    /// so a mailbox that is open and empty stays so until the time is over.
    pub fn recv_latest_timeout(&mut self, _timeout: std::time::Duration) -> (r: Result<
        MailboxItem<T>,
        RecvTimeoutError,
    >)
        requires
            old(self)@.wf(),
        ensures
            final(self)@ == old(self)@.emptied(),
            r == (if old(self)@.closed {
                Err(RecvTimeoutError::Closed)
            } else {
                match old(self)@.pending {
                    Some(item) => Ok(item),
                    None => Err(RecvTimeoutError::Timeout),
                }
            }),
    {
        match self.receive_step(true) {
            Receipt::Item(item) => Ok(item),
            Receipt::Closed => Err(RecvTimeoutError::Closed),
            _ => Err(RecvTimeoutError::Timeout),
        }
    }

    /// Closes the mailbox and returns the value that was pending.
    pub fn close(&mut self) -> (r: Option<T>)
        ensures
            final(self)@ == old(self)@.after_close(),
            r == old(self)@.waiting(),
    {
        self.closed = true;
        match self.pending.take() {
            Some(item) => Some(item.value),
            None => None,
        }
    }

    /// Whether the mailbox is closed.
    pub fn is_closed(&self) -> (r: bool)
        ensures
            r == self@.closed,
    {
        self.closed
    }
}

/// Every operation keeps a closed mailbox empty.
pub proof fn law_closed_mailboxes_stay_empty<T>(mailbox: MailboxView<T>, value: T)
    requires
        mailbox.wf(),
    ensures
        mailbox.after_send(value).wf(),
        mailbox.emptied().wf(),
        mailbox.after_close().wf(),
{
}

/// Of two values sent in a row the second is received, and the first is the one it replaces.
pub proof fn law_newest_value_is_received<T>(mailbox: MailboxView<T>, first: T, second: T)
    requires
        !mailbox.closed,
    ensures
        mailbox.after_send(first).waiting() == Some(first),
        mailbox.after_send(first).after_send(second).receipt(false) matches Receipt::Item(item)
            && item.value == second,
        mailbox.after_send(first).after_send(second).emptied().waiting() is None,
{
}

/// A value is received at most once.
pub proof fn law_values_are_received_once<T>(mailbox: MailboxView<T>, expired: bool)
    ensures
        !(mailbox.emptied().receipt(expired) is Item),
{
}

/// A closed mailbox accepts nothing, hands nothing out and stays closed; closing it again
/// changes nothing.
pub proof fn law_closing_is_final<T>(mailbox: MailboxView<T>, value: T, expired: bool)
    ensures
        mailbox.after_close().after_send(value) == mailbox.after_close(),
        mailbox.after_close().receipt(expired) is Closed,
        mailbox.after_close().emptied() == mailbox.after_close(),
        mailbox.after_close().after_close() == mailbox.after_close(),
{
}

/// Values are numbered in the order in which they are accepted, and after the last number comes
/// zero. A value keeps its number until it is received, and taking it leaves the numbering.
pub proof fn law_values_are_numbered<T>(mailbox: MailboxView<T>, value: T)
    requires
        !mailbox.closed,
    ensures
        mailbox.version < u64::MAX ==> mailbox.after_send(value).version == mailbox.version + 1,
        mailbox.version == u64::MAX ==> mailbox.after_send(value).version == 0,
        mailbox.after_send(value).pending is Some,
        mailbox.after_send(value).pending->0.version == mailbox.after_send(value).version,
        mailbox.after_send(value).pending->0.value == value,
        !mailbox.after_send(value).closed,
        mailbox.emptied().version == mailbox.version && mailbox.emptied().closed == mailbox.closed,
{
}

/// A receiver takes the pending value whether its time is over or not; without one it gives up
/// when its time is over, and else waits.
pub proof fn law_receivers_wait_for_values<T>(mailbox: MailboxView<T>, expired: bool)
    requires
        !mailbox.closed,
    ensures
        match mailbox.receipt(expired) {
            Receipt::Item(item) => mailbox.pending == Some(item),
            Receipt::Timeout => mailbox.pending is None && expired,
            Receipt::Wait => mailbox.pending is None && !expired,
            Receipt::Closed => false,
        },
{
}

} // verus!
