//! Bounded queue from a transport to the bridge, with shed accounting.
use crate::payload::{ActivityCmd, CmdView};
use crate::router::{bump, bumped};
use tokio::sync::mpsc::{Receiver, Sender};
use vstd::prelude::*;

verus! {

/// The sending half of a bounded channel of the `tokio` crate.
#[verifier::external_type_specification]
#[verifier::external_body]
#[verifier::reject_recursive_types(T)]
pub struct ExSender<T>(tokio::sync::mpsc::Sender<T>);

/// The receiving half of a bounded channel of the `tokio` crate.
#[verifier::external_type_specification]
#[verifier::external_body]
#[verifier::reject_recursive_types(T)]
pub struct ExReceiver<T>(tokio::sync::mpsc::Receiver<T>);

/// Bound of the queue between the IPC transport and the bridge.
pub const DEFAULT_IPC_QUEUE: usize = 64;

/// How many commands fit into the queue of a sender.
pub uninterp spec fn queue_bound(tx: Sender<ActivityCmd>) -> usize;

/// The commands that the queue took from a sender so far, in order.
pub uninterp spec fn queue_taken(tx: Sender<ActivityCmd>) -> Seq<CmdView>;

/// `tokio::sync::mpsc::channel`: a channel with room for `capacity` commands,
/// which has taken none yet. The call panics without room and beyond the
/// bound of its semaphore, an eighth of the address space.
#[verifier::external_body]
fn open_channel(capacity: usize) -> (r: (Sender<ActivityCmd>, Receiver<ActivityCmd>))
    requires
        0 < capacity <= usize::MAX / 8,
    ensures
        queue_bound(r.0) == capacity,
        queue_taken(r.0) == Seq::<CmdView>::empty(),
{
    tokio::sync::mpsc::channel(capacity)
}

/// `Sender::try_send`: whether the command was queued. If it was, the queue
/// took this command after those before; if not, it took nothing. Which of
/// the two depends on the other half: the queue may be full or its receiver
/// gone; so nothing is stated of the answer itself.
#[verifier::external_body]
fn try_queue(tx: &mut Sender<ActivityCmd>, cmd: ActivityCmd) -> (r: bool)
    ensures
        queue_bound(*final(tx)) == queue_bound(*old(tx)),
        queue_taken(*final(tx)) == if r {
            queue_taken(*old(tx)).push(cmd@)
        } else {
            queue_taken(*old(tx))
        },
{
    tx.try_send(cmd).is_ok()
}

/// `Sender::max_capacity`: the room that the channel was made with.
#[verifier::external_body]
fn bound_of(tx: &Sender<ActivityCmd>) -> (r: usize)
    ensures
        r == queue_bound(*tx),
{
    tx.max_capacity()
}

/// `Sender::capacity`: the room that is left, which depends on the other
/// half; so nothing is stated of it.
#[verifier::external_body]
fn room_in(tx: &Sender<ActivityCmd>) -> (r: usize) {
    tx.capacity()
}

/// Queued depth of a queue: its bound less the room that is left.
pub fn queue_depth(max_capacity: usize, capacity: usize) -> (r: usize)
    ensures
        r == if capacity <= max_capacity {
            max_capacity - capacity
        } else {
            0
        },
{
    if capacity <= max_capacity {
        max_capacity - capacity
    } else {
        0
    }
}

/// Queued depth behind a sender, see [`queue_depth`]; zero without one. How
/// much of the bound is in use depends on the receiver.
pub fn channel_depth(tx: Option<&Sender<ActivityCmd>>) -> (r: usize)
    ensures
        match tx {
            Some(tx) => r <= queue_bound(*tx),
            None => r == 0,
        },
{
    match tx {
        Some(tx) => queue_depth(bound_of(tx), room_in(tx)),
        None => 0,
    }
}

/// Handle that feeds commands downstream. Never blocks: what does not fit is
/// shed and counted.
pub struct EventSink {
    tx: Sender<ActivityCmd>,
    dropped: u64,
}

impl EventSink {
    /// Commands shed so far.
    pub closed spec fn shed(self) -> u64 {
        self.dropped
    }

    /// How many commands fit into the queue.
    pub closed spec fn bound(self) -> usize {
        queue_bound(self.tx)
    }

    /// The commands that the queue took so far, in order.
    pub closed spec fn taken(self) -> Seq<CmdView> {
        queue_taken(self.tx)
    }

    /// A sink with `capacity` slots, and its receiver.
    pub fn bounded(capacity: usize) -> (r: (Self, Receiver<ActivityCmd>))
        requires
            0 < capacity <= usize::MAX / 8,
        ensures
            r.0.shed() == 0,
            r.0.bound() == capacity,
            r.0.taken() == Seq::<CmdView>::empty(),
    {
        let (tx, rx) = open_channel(capacity);
        (EventSink { tx, dropped: 0 }, rx)
    }

    /// Take note of whether a command was queued.
    pub fn note(&mut self, queued: bool)
        ensures
            final(self).bound() == old(self).bound(),
            final(self).taken() == old(self).taken(),
            final(self).shed() == if queued {
                old(self).shed()
            } else {
                bumped(old(self).shed())
            },
    {
        if !queued {
            self.dropped = bump(self.dropped);
        }
    }

    /// Queue one command, or shed it. Whether it was queued, which depends on
    /// the receiver.
    pub fn emit(&mut self, cmd: ActivityCmd) -> (r: bool)
        ensures
            final(self).bound() == old(self).bound(),
            final(self).taken() == if r {
                old(self).taken().push(cmd@)
            } else {
                old(self).taken()
            },
            final(self).shed() == if r {
                old(self).shed()
            } else {
                bumped(old(self).shed())
            },
    {
        let queued = try_queue(&mut self.tx, cmd);
        self.note(queued);
        queued
    }

    /// Commands that are queued, see [`channel_depth`].
    pub fn depth(&self) -> (r: usize)
        ensures
            r <= self.bound(),
    {
        channel_depth(Some(&self.tx))
    }

    /// Commands shed since creation; the count wraps.
    pub fn dropped_total(&self) -> (r: u64)
        ensures
            r == self.shed(),
    {
        self.dropped
    }
}

} // verus!
