//! The counters that queues share with their producers.

use std::sync::atomic::AtomicUsize;
use std::sync::atomic::Ordering;
use std::sync::Arc;

use vstd::prelude::*;

use crate::shared::WordAccess;
use crate::shared::WordStep;
use crate::shared::WordView;

verus! {

/// A counter that a queue shares with its producers. The queue takes items off it and looks at
/// it.
pub struct DepthCounter {
    access: WordAccess<Arc<AtomicUsize>>,
}

impl View for DepthCounter {
    type V = WordView;

    closed spec fn view(&self) -> WordView {
        self.access@
    }
}

impl DepthCounter {
    /// A counter that the queue has not touched yet.
    pub fn new(counter: Arc<AtomicUsize>) -> (depth: DepthCounter)
        ensures
            depth@ == WordView::untouched(*counter),
    {
        DepthCounter { access: WordAccess::to(counter) }
    }

    /// Another handle on the counter, for producers.
    pub fn handle(&self) -> (counter: Arc<AtomicUsize>)
        ensures
            *counter == self@.word,
    {
        self.access.share()
    }

    /// Takes `count` items off.
    pub(crate) fn lower(&mut self, count: usize)
        ensures
            final(self)@ == old(self)@.stepped(WordStep::Subtract { amount: count }),
    {
        self.access.subtract(count, Ordering::Relaxed);
    }

    /// What the counter shows at this moment.
    pub(crate) fn read(&mut self) -> (shown: usize)
        ensures
            final(self)@ == old(self)@.stepped(WordStep::Load { found: shown }),
    {
        self.access.load(Ordering::Relaxed)
    }

    /// What the counter shows at this moment, together with the look at it.
    pub(crate) fn look(&self) -> (looked: (usize, WordAccess<&'_ AtomicUsize>))
        ensures
            looked.1@ == WordView::untouched(self@.word).stepped(
                WordStep::Load { found: looked.0 },
            ),
    {
        let mut access = self.access.borrowed();
        let shown: usize = access.load(Ordering::Relaxed);
        (shown, access)
    }
}

} // verus!
