//! A source of screenshots, with a record of the lock under which it is asked.

use crate::screenshot::interface::{FrameEvent, FrameProvider, Monitor, Screenshot};
use crate::screenshot::screenmanager::{RuntimeEvent, ScreenManagerRuntime};
use vstd::prelude::*;

verus! {

/// What happens round a source of screenshots.
pub enum SourceEvent {
    /// The lock on the screen was taken.
    LockAcquired,
    /// A screenshot of a monitor was asked for.
    FrameAsked(Monitor),
    /// The lock on the screen was given back.
    LockReleased,
}

/// A source of screenshots. Whoever holds it can ask it only through this type, which keeps the
/// order of the questions and of what was done with the lock.
pub struct FrameSource<B> {
    provider: B,
    record: Ghost<Seq<SourceEvent>>,
}

impl<B> FrameSource<B> {
    /// The source itself.
    pub closed spec fn provider(&self) -> B {
        self.provider
    }

    /// What was done with the lock and which screenshots were asked for, in this order.
    pub closed spec fn record(&self) -> Seq<SourceEvent> {
        self.record@
    }

    /// A source that was not asked yet.
    pub fn new(provider: B) -> (r: Self)
        ensures
            r.provider() == provider,
            r.record() == Seq::<SourceEvent>::empty(),
    {
        FrameSource { provider, record: Ghost(Seq::empty()) }
    }

    /// Takes the lock on the screen.
    pub fn acquire<R: ScreenManagerRuntime>(&mut self, runtime: &mut R)
        ensures
            final(self).provider() == old(self).provider(),
            final(self).record() == old(self).record().push(SourceEvent::LockAcquired),
            final(runtime).history() == old(runtime).history().push(RuntimeEvent::AcquireLock),
    {
        runtime.screen_lock_acquire();
        proof {
            self.record@ = self.record@.push(SourceEvent::LockAcquired);
        }
    }

    /// Gives the lock on the screen back.
    pub fn release<R: ScreenManagerRuntime>(&mut self, runtime: &mut R)
        ensures
            final(self).provider() == old(self).provider(),
            final(self).record() == old(self).record().push(SourceEvent::LockReleased),
            final(runtime).history() == old(runtime).history().push(RuntimeEvent::ReleaseLock),
    {
        runtime.screen_lock_release();
        proof {
            self.record@ = self.record@.push(SourceEvent::LockReleased);
        }
    }
}

impl<B: FrameProvider> FrameSource<B> {
    /// The requests made of the source.
    pub open spec fn history(&self) -> Seq<FrameEvent> {
        self.provider().history()
    }

    /// The monitors there are.
    pub fn monitors(&mut self) -> (r: Result<Vec<Monitor>, String>)
        ensures
            final(self).record() == old(self).record(),
            final(self).history() == old(self).history().push(
                FrameEvent::Monitors(
                    match r {
                        Ok(monitors) => Ok(monitors@),
                        Err(message) => Err(message@),
                    },
                ),
            ),
    {
        self.provider.monitors()
    }

    /// A screenshot of a monitor.
    pub fn frame(&mut self, monitor: &Monitor) -> (r: Result<Screenshot, String>)
        ensures
            final(self).record() == old(self).record().push(SourceEvent::FrameAsked(*monitor)),
            final(self).history() == old(self).history().push(
                FrameEvent::Frame(
                    *monitor,
                    match r {
                        Ok(shot) => Ok(shot@),
                        Err(message) => Err(message@),
                    },
                ),
            ),
    {
        proof {
            self.record@ = self.record@.push(SourceEvent::FrameAsked(*monitor));
        }
        self.provider.frame(monitor)
    }
}

} // verus!
