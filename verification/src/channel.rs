//! Broadcast channels of `tokio`, through which published messages reach
//! subscribers.
//!
//! Each handle carries a ghost `id`, which stands for the channel it belongs
//! to, and the sender carries the ghost `log` of every message handed to it
//! and the ghost record `taken` of whether each send reached a receiver.
//! Only the trusted items below make handles or change these: a new channel
//! gives a sender and a receiver with one id; subscribing gives a receiver
//! with the sender's id that starts at the end of the sender's log; sending
//! adds the message to the log and its outcome to the record. What a receiver is owed is then the part of
//! its channel's log from its start on. Nothing here states what a receiver
//! actually takes out: a slow one can miss messages (tokio reports them as
//! lagged), and taking is done outside this library.

use tokio::sync::broadcast::{Receiver, Sender};
use vstd::prelude::*;

verus! {

#[verifier::external_type_specification]
#[verifier::external_body]
#[verifier::reject_recursive_types(T)]
pub struct ExSender<T>(Sender<T>);

#[verifier::external_type_specification]
#[verifier::external_body]
#[verifier::reject_recursive_types(T)]
pub struct ExReceiver<T>(Receiver<T>);

/// The sending handle of a channel.
pub struct ChannelSender {
    inner: Sender<Vec<u8>>,
    id: Ghost<nat>,
    log: Ghost<Seq<Seq<u8>>>,
    taken: Ghost<Seq<bool>>,
}

/// A receiving handle of a channel.
pub struct ChannelReceiver {
    inner: Receiver<Vec<u8>>,
    id: Ghost<nat>,
    start: Ghost<nat>,
}

impl ChannelSender {
    /// The channel this sender belongs to.
    pub closed spec fn id(&self) -> nat {
        self.id@
    }

    /// Every message handed to this sender, in order.
    pub closed spec fn log(&self) -> Seq<Seq<u8>> {
        self.log@
    }

    /// For each message handed to this sender, in order, whether the send
    /// reached a receiver.
    pub closed spec fn taken(&self) -> Seq<bool> {
        self.taken@
    }
}

impl ChannelReceiver {
    /// The channel this receiver belongs to.
    pub closed spec fn id(&self) -> nat {
        self.id@
    }

    /// How many messages of its channel's log were sent before this
    /// receiver was made; it is owed those that follow.
    pub closed spec fn start(&self) -> nat {
        self.start@
    }

    /// The tokio receiver, for taking messages out.
    pub fn into_inner(self) -> Receiver<Vec<u8>> {
        self.inner
    }
}

/// `tokio::sync::broadcast::channel`: a new channel with room for
/// `capacity` messages, its sender and one receiver. It panics when the
/// capacity is zero or above `usize::MAX / 2`. Claimed: both handles belong
/// to the one new channel, whose log is empty, and the receiver is owed all
/// of it.
#[verifier::external_body]
pub fn broadcast_channel(capacity: usize) -> (r: (ChannelSender, ChannelReceiver))
    requires
        0 < capacity <= usize::MAX / 2,
    ensures
        r.0.id() == r.1.id(),
        r.0.log() == Seq::<Seq<u8>>::empty(),
        r.0.taken() == Seq::<bool>::empty(),
        r.1.start() == 0,
{
    let (tx, rx) = tokio::sync::broadcast::channel(capacity);
    let ghost id: nat = arbitrary();
    (
        ChannelSender { inner: tx, id: Ghost(id), log: Ghost(Seq::empty()), taken: Ghost(Seq::empty()) },
        ChannelReceiver { inner: rx, id: Ghost(id), start: Ghost(0) },
    )
}

/// `Sender::subscribe`: a new receiver of the sender's channel, which sees
/// the messages sent after this call and none from before. Claimed: it has
/// the sender's id and starts at the end of the sender's log. tokio panics
/// when the channel already has `usize::MAX >> 2` receivers, a count this
/// library cannot observe.
#[verifier::external_body]
pub fn sender_subscribe(sender: &ChannelSender) -> (r: ChannelReceiver)
    ensures
        r.id() == sender.id(),
        r.start() == sender.log().len(),
{
    ChannelReceiver {
        inner: sender.inner.subscribe(),
        id: Ghost(sender.id@),
        start: Ghost(sender.log@.len()),
    }
}

/// `Sender::send`: hands `value` to the channel. Claimed: the message is
/// added to the sender's log, and whether the send succeeded to the record
/// of sends that reached a receiver; on success the result is the number of
/// receivers it was handed to, at least one; when the channel has no
/// receiver left it fails and hands the message back. Which of the two
/// happens depends on receivers held elsewhere.
#[verifier::external_body]
pub fn sender_send(sender: &mut ChannelSender, value: Vec<u8>) -> (r: Result<usize, Vec<u8>>)
    ensures
        final(sender).id() == old(sender).id(),
        final(sender).log() == old(sender).log().push(value@),
        final(sender).taken() == old(sender).taken().push(r is Ok),
        r matches Ok(n) ==> n >= 1,
        r matches Err(v) ==> v@ == value@,
{
    let ghost logged = sender.log@.push(value@);
    let r = sender.inner.send(value).map_err(|e| e.0);
    sender.log = Ghost(logged);
    sender.taken = Ghost(sender.taken@.push(r is Ok));
    r
}

} // verus!
