//! Backlog of a queue: how deep it is and what it shed.
use vstd::prelude::*;

verus! {

/// How a send with a cap went.
#[derive(Clone, Copy, PartialEq, Eq, Structural, Debug)]
pub enum SendChecked {
    Sent,
    /// The queue was at its cap; counted.
    Shed,
    /// The receiver is gone: the sender is to end.
    Closed,
}

/// Depth of a queue and what was shed from it.
#[derive(Clone, Copy, PartialEq, Eq, Structural, Debug)]
pub struct QueueGauge {
    pub depth: usize,
    pub dropped: usize,
}

impl QueueGauge {
    /// An empty queue.
    pub fn new() -> (r: Self)
        ensures
            r == (QueueGauge { depth: 0, dropped: 0 }),
    {
        QueueGauge { depth: 0, dropped: 0 }
    }

    /// Values that are queued.
    pub fn depth(&self) -> (r: usize)
        ensures
            r == self.depth,
    {
        self.depth
    }

    /// Values that were shed.
    pub fn dropped_total(&self) -> (r: usize)
        ensures
            r == self.dropped,
    {
        self.dropped
    }

    /// A value was sent; one that could not be delivered is no backlog.
    pub fn note_sent(&mut self, delivered: bool)
        ensures
            *final(self) == (QueueGauge {
                depth: if delivered && old(self).depth < usize::MAX {
                    (old(self).depth + 1) as usize
                } else {
                    old(self).depth
                },
                ..*old(self)
            }),
    {
        if delivered && self.depth < usize::MAX {
            self.depth = self.depth + 1;
        }
    }

    /// A value was received; an empty queue stays empty.
    pub fn note_received(&mut self)
        ensures
            *final(self) == (QueueGauge {
                depth: if old(self).depth > 0 {
                    (old(self).depth - 1) as usize
                } else {
                    0
                },
                ..*old(self)
            }),
    {
        if self.depth > 0 {
            self.depth = self.depth - 1;
        }
    }

    /// What becomes of a send into a queue of at most `cap` values, whose
    /// receiver may be gone: a gone receiver is told apart even when the
    /// queue is full, or senders would never end. Only a value that is to be
    /// sent takes a place.
    pub fn send_checked(&mut self, open: bool, cap: usize) -> (r: SendChecked)
        ensures
            r == if !open {
                SendChecked::Closed
            } else if old(self).depth >= cap {
                SendChecked::Shed
            } else {
                SendChecked::Sent
            },
            *final(self) == match r {
                SendChecked::Closed => *old(self),
                SendChecked::Shed => QueueGauge {
                    dropped: if old(self).dropped < usize::MAX {
                        (old(self).dropped + 1) as usize
                    } else {
                        usize::MAX
                    },
                    ..*old(self)
                },
                SendChecked::Sent => QueueGauge { depth: (old(self).depth + 1) as usize, ..*old(self) },
            },
            old(self).depth <= cap ==> final(self).depth <= cap,
    {
        if !open {
            return SendChecked::Closed;
        }
        if self.depth >= cap {
            if self.dropped < usize::MAX {
                self.dropped = self.dropped + 1;
            }
            return SendChecked::Shed;
        }
        self.depth = self.depth + 1;
        SendChecked::Sent
    }
}

} // verus!
