//! The rendezvous primitive: a synchronous paired message channel.
//!
//! Two endpoints share a mailbox with one slot.  A sender blocks until
//! a receiver is present and vice versa; the thread that blocks is
//! parked out of the run queue, and the outcome of each operation tells
//! the caller whom to park or wake.  When one endpoint is dropped the
//! channel closes, and the peer — parked or arriving later — gets the
//! closed-channel error.
//!
//! The channel carries its send and receive history as ghost state, and
//! the operations prove that delivery is pairwise first-in first-out:
//! every receive returns the oldest message sent and not yet received.

use vstd::prelude::*;
use crate::message::Message;

verus! {

/// Which endpoint of the channel is acting.
#[derive(Clone, Copy, PartialEq, Eq, Structural)]
pub enum Side {
    A,
    B,
}

/// The mailbox of a rendezvous.
pub enum RendezvousState {
    /// Nobody is waiting.
    Idle,
    /// A sender is parked with its message until a receiver arrives.
    SenderWaiting { msg: Message, sender_tid: u64 },
    /// A receiver is parked until a sender arrives.
    ReceiverWaiting { receiver_tid: u64 },
    /// An endpoint was dropped while a thread was parked; the pending
    /// exchange is abandoned.
    Closed,
}

/// A rendezvous: the shared mailbox, whether each endpoint is still
/// held, and the ghost history of messages sent and received on it.
pub struct Rendezvous {
    pub state: RendezvousState,
    pub a_open: bool,
    pub b_open: bool,
    pub sent: Ghost<Seq<Message>>,
    pub received: Ghost<Seq<Message>>,
}

/// What `send` tells the scheduler to do.
pub enum SendOutcome {
    /// A receiver was waiting: wake it and hand it the message.
    Delivered { receiver_tid: u64, msg: Message },
    /// Nobody was ready: the sender is parked with the message.
    Parked,
    /// The peer endpoint is gone; the message comes back to the caller.
    Closed { msg: Message },
}

/// What `receive` tells the scheduler to do.
pub enum ReceiveOutcome {
    /// A sender was waiting: wake it and take its message.
    Received { msg: Message, sender_tid: u64 },
    /// Nobody was ready: the receiver is parked.
    Parked,
    /// The peer endpoint is gone.
    Closed,
}

/// The peer endpoint of `side` is still held, and the channel has not
/// been abandoned.
pub open spec fn peer_open(rv: Rendezvous, side: Side) -> bool {
    &&& !(rv.state is Closed)
    &&& match side {
        Side::A => rv.b_open,
        Side::B => rv.a_open,
    }
}

/// Channel invariant: what was received is a prefix of what was sent,
/// with exactly one message in flight while a sender waits.
pub open spec fn rendezvous_wf(rv: Rendezvous) -> bool {
    &&& rv.received@ == rv.sent@.subrange(0, rv.received@.len() as int)
    &&& match rv.state {
        RendezvousState::SenderWaiting { msg, sender_tid } => rv.sent@.len()
            == rv.received@.len() + 1 && rv.sent@.last() == msg,
        RendezvousState::Closed => rv.sent@.len() >= rv.received@.len(),
        _ => rv.sent@.len() == rv.received@.len(),
    }
}

/// A fresh rendezvous: both endpoints held, nobody waiting, empty
/// history.
pub fn new_rendezvous() -> (rv: Rendezvous)
    ensures
        rendezvous_wf(rv),
        rv.state is Idle,
        rv.a_open,
        rv.b_open,
        rv.sent@ == Seq::<Message>::empty(),
        rv.received@ == Seq::<Message>::empty(),
{
    let rv = Rendezvous {
        state: RendezvousState::Idle,
        a_open: true,
        b_open: true,
        sent: Ghost(Seq::empty()),
        received: Ghost(Seq::empty()),
    };
    proof {
        assert(rv.received@ =~= rv.sent@.subrange(0, 0));
    }
    rv
}

/// Send a message from `side`.  With the peer dropped the message
/// comes back with the closed-channel outcome; with a receiver parked
/// it is delivered and the receiver woken; otherwise the sender parks.
/// A delivered or parked message extends the send history, so sends on
/// a channel are ordered.
pub fn send(rv: &mut Rendezvous, side: Side, sender_tid: u64, msg: Message) -> (r: SendOutcome)
    requires
        rendezvous_wf(*old(rv)),
        !(old(rv).state is SenderWaiting),
    ensures
        rendezvous_wf(*final(rv)),
        final(rv).a_open == old(rv).a_open,
        final(rv).b_open == old(rv).b_open,
        !peer_open(*old(rv), side) ==> r == (SendOutcome::Closed { msg }) && *final(rv) == *old(
            rv,
        ),
        peer_open(*old(rv), side) ==> match old(rv).state {
            RendezvousState::ReceiverWaiting { receiver_tid } => {
                &&& r == (SendOutcome::Delivered { receiver_tid, msg })
                &&& final(rv).state is Idle
                &&& final(rv).sent@ == old(rv).sent@.push(msg)
                &&& final(rv).received@ == old(rv).received@.push(msg)
            },
            _ => {
                &&& r is Parked
                &&& final(rv).state == (RendezvousState::SenderWaiting { msg, sender_tid })
                &&& final(rv).sent@ == old(rv).sent@.push(msg)
                &&& final(rv).received@ == old(rv).received@
            },
        },
{
    let closed = match side {
        Side::A => !rv.b_open,
        Side::B => !rv.a_open,
    };
    let mut state = RendezvousState::Idle;
    core::mem::swap(&mut state, &mut rv.state);
    match state {
        RendezvousState::Closed => {
            rv.state = RendezvousState::Closed;
            SendOutcome::Closed { msg }
        },
        RendezvousState::ReceiverWaiting { receiver_tid } => {
            if closed {
                rv.state = RendezvousState::ReceiverWaiting { receiver_tid };
                SendOutcome::Closed { msg }
            } else {
                rv.state = RendezvousState::Idle;
                proof {
                    rv.sent@ = rv.sent@.push(msg);
                    rv.received@ = rv.received@.push(msg);
                    assert(rv.received@ =~= rv.sent@.subrange(0, rv.received@.len() as int));
                }
                SendOutcome::Delivered { receiver_tid, msg }
            }
        },
        RendezvousState::Idle => {
            if closed {
                rv.state = RendezvousState::Idle;
                SendOutcome::Closed { msg }
            } else {
                proof {
                    rv.sent@ = rv.sent@.push(msg);
                    assert(rv.received@ =~= rv.sent@.subrange(0, rv.received@.len() as int));
                }
                rv.state = RendezvousState::SenderWaiting { msg, sender_tid };
                SendOutcome::Parked
            }
        },
        RendezvousState::SenderWaiting { msg: pending, sender_tid: pending_tid } => {
            // Excluded by the caller: a single outstanding sender.
            rv.state = RendezvousState::SenderWaiting {
                msg: pending,
                sender_tid: pending_tid,
            };
            SendOutcome::Closed { msg }
        },
    }
}

/// Receive a message at `side`.  A parked sender's message is taken —
/// it is the oldest sent and not yet received message, which is the
/// pairwise first-in first-out guarantee — and the sender woken; with
/// nobody waiting the receiver parks, unless the peer is gone.
pub fn receive(rv: &mut Rendezvous, side: Side, receiver_tid: u64) -> (r: ReceiveOutcome)
    requires
        rendezvous_wf(*old(rv)),
        !(old(rv).state is ReceiverWaiting),
    ensures
        rendezvous_wf(*final(rv)),
        final(rv).a_open == old(rv).a_open,
        final(rv).b_open == old(rv).b_open,
        match old(rv).state {
            RendezvousState::SenderWaiting { msg, sender_tid } => {
                &&& r == (ReceiveOutcome::Received { msg, sender_tid })
                &&& msg == old(rv).sent@[old(rv).received@.len() as int]
                &&& final(rv).state is Idle
                &&& final(rv).sent@ == old(rv).sent@
                &&& final(rv).received@ == old(rv).received@.push(msg)
            },
            RendezvousState::Closed => r is Closed && *final(rv) == *old(rv),
            _ => if !peer_open(*old(rv), side) {
                r is Closed && *final(rv) == *old(rv)
            } else {
                &&& r is Parked
                &&& final(rv).state == (RendezvousState::ReceiverWaiting { receiver_tid })
                &&& final(rv).sent@ == old(rv).sent@
                &&& final(rv).received@ == old(rv).received@
            },
        },
{
    let closed = match side {
        Side::A => !rv.b_open,
        Side::B => !rv.a_open,
    };
    let mut state = RendezvousState::Idle;
    core::mem::swap(&mut state, &mut rv.state);
    match state {
        RendezvousState::Closed => {
            rv.state = RendezvousState::Closed;
            ReceiveOutcome::Closed
        },
        RendezvousState::SenderWaiting { msg, sender_tid } => {
            rv.state = RendezvousState::Idle;
            proof {
                rv.received@ = rv.received@.push(msg);
                assert(old(rv).sent@[old(rv).received@.len() as int] == old(rv).sent@.last());
                assert(rv.received@ =~= rv.sent@.subrange(0, rv.received@.len() as int));
            }
            ReceiveOutcome::Received { msg, sender_tid }
        },
        RendezvousState::Idle => {
            if closed {
                rv.state = RendezvousState::Idle;
                ReceiveOutcome::Closed
            } else {
                rv.state = RendezvousState::ReceiverWaiting { receiver_tid };
                ReceiveOutcome::Parked
            }
        },
        RendezvousState::ReceiverWaiting { receiver_tid: pending } => {
            // Excluded by the caller: a single outstanding receiver.
            rv.state = RendezvousState::ReceiverWaiting { receiver_tid: pending };
            ReceiveOutcome::Closed
        },
    }
}

/// Drop one endpoint.  When a thread of the peer is parked on the
/// channel, it must be woken with the closed-channel error: its id
/// comes back, and the channel is abandoned.
pub fn drop_endpoint(rv: &mut Rendezvous, side: Side) -> (woken: Option<u64>)
    requires
        rendezvous_wf(*old(rv)),
    ensures
        rendezvous_wf(*final(rv)),
        match side {
            Side::A => !final(rv).a_open && final(rv).b_open == old(rv).b_open,
            Side::B => !final(rv).b_open && final(rv).a_open == old(rv).a_open,
        },
        match old(rv).state {
            RendezvousState::SenderWaiting { msg, sender_tid } => woken == Some(sender_tid)
                && final(rv).state is Closed,
            RendezvousState::ReceiverWaiting { receiver_tid } => woken == Some(receiver_tid)
                && final(rv).state is Closed,
            _ => woken is None && final(rv).state == old(rv).state,
        },
        final(rv).sent@ == old(rv).sent@,
        final(rv).received@ == old(rv).received@,
{
    match side {
        Side::A => {
            rv.a_open = false;
        },
        Side::B => {
            rv.b_open = false;
        },
    }
    let mut state = RendezvousState::Idle;
    core::mem::swap(&mut state, &mut rv.state);
    match state {
        RendezvousState::SenderWaiting { msg: _, sender_tid } => {
            rv.state = RendezvousState::Closed;
            Some(sender_tid)
        },
        RendezvousState::ReceiverWaiting { receiver_tid } => {
            rv.state = RendezvousState::Closed;
            Some(receiver_tid)
        },
        RendezvousState::Idle => {
            rv.state = RendezvousState::Idle;
            None
        },
        RendezvousState::Closed => {
            rv.state = RendezvousState::Closed;
            None
        },
    }
}

/// Rendezvous delivery is pairwise first-in first-out: the history of
/// received messages is a prefix of the history of sent messages, so
/// the first receive saw the first send, the second the second, and so
/// on.
pub proof fn lemma_rendezvous_fifo(rv: Rendezvous)
    requires
        rendezvous_wf(rv),
    ensures
        forall|i: int|
            0 <= i < rv.received@.len() ==> rv.received@[i] == rv.sent@[i],
{
    assert forall|i: int| 0 <= i < rv.received@.len() implies rv.received@[i] == rv.sent@[i] by {
        assert(rv.received@[i] == rv.sent@.subrange(0, rv.received@.len() as int)[i]);
    }
}

} // verus!
