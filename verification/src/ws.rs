//! Notifications pushed to connected clients through a broadcast channel.
use vstd::prelude::*;

use tokio::sync::broadcast::{Receiver, Sender};

use crate::text::{json_string, push_json_string};

verus! {

#[verifier::external_type_specification]
#[verifier::external_body]
#[verifier::reject_recursive_types(T)]
pub struct ExBroadcastSender<T>(Sender<T>);

#[verifier::external_type_specification]
#[verifier::external_body]
#[verifier::reject_recursive_types(T)]
pub struct ExBroadcastReceiver<T>(Receiver<T>);

/// How many messages the channel holds for a slow subscriber.
pub const CHANNEL_CAPACITY: usize = 256;

/// The number of messages that the channel behind a sender holds, fixed when the
/// channel is made.
pub uninterp spec fn channel_capacity(tx: Sender<String>) -> nat;

/// The number of messages that the channel a receiver reads holds, fixed when the
/// channel is made.
pub uninterp spec fn receiver_capacity(rx: Receiver<String>) -> nat;

/// `n` is a power of two.
pub open spec fn is_power_of_two(n: nat) -> bool
    decreases n,
{
    if n <= 1 {
        n == 1
    } else {
        n % 2 == 0 && is_power_of_two(n / 2)
    }
}

/// The only power of two from `b` up to twice `b`, where `b` is one, is `b`.
proof fn lemma_power_of_two_between(b: nat, c: nat)
    requires
        is_power_of_two(b),
        is_power_of_two(c),
        b <= c < 2 * b,
    ensures
        c == b,
    decreases b,
{
    if b > 1 {
        lemma_power_of_two_between((b / 2) as nat, (c / 2) as nat);
    }
}

/// Calls `tokio::sync::broadcast::channel`, which panics on a capacity of zero or above
/// `usize::MAX / 2`. The channel it makes holds `capacity` rounded up to a power of two
/// messages, and both halves belong to it; that they are halves of one channel is not
/// stated.
#[verifier::external_body]
fn broadcast_channel(capacity: usize) -> (c: (Sender<String>, Receiver<String>))
    requires
        0 < capacity <= usize::MAX / 2,
    ensures
        is_power_of_two(channel_capacity(c.0)),
        capacity <= channel_capacity(c.0) < 2 * capacity,
        receiver_capacity(c.1) == channel_capacity(c.0),
{
    tokio::sync::broadcast::channel(capacity)
}

/// Calls `Sender::send`, which fails when nobody subscribes; whether it did is not
/// stated, since it depends on the subscribers that other code holds.
#[verifier::external_body]
fn broadcast_send(tx: &Sender<String>, message: String) -> (delivered: bool) {
    tx.send(message).is_ok()
}

/// Calls `Sender::subscribe`. The receiver it makes reads the sender's channel, so it
/// reads a channel of the same capacity; that it is the same channel, and which
/// messages it will see, is not stated.
#[verifier::external_body]
fn broadcast_subscribe(tx: &Sender<String>) -> (rx: Receiver<String>)
    ensures
        receiver_capacity(rx) == channel_capacity(*tx),
{
    tx.subscribe()
}

/// A notification: an event name and its data as JSON text.
#[derive(Debug, Clone)]
pub struct WsNotification {
    pub event: String,
    pub data: String,
}

/// The JSON form of a notification: `{"event": <name>, "data": <data>}`.
pub open spec fn notification_json(n: WsNotification) -> Seq<char> {
    "{"@ + json_string("event"@) + ":"@ + json_string(n.event@) + ","@ + json_string("data"@) + ":"@
        + n.data@ + "}"@
}

impl WsNotification {
    /// The JSON form of the notification.
    pub fn to_json(&self) -> (s: String)
        ensures
            s@ == notification_json(*self),
    {
        let mut s = String::from_str("{");
        push_json_string(&mut s, "event");
        s.append(":");
        push_json_string(&mut s, self.event.as_str());
        s.append(",");
        push_json_string(&mut s, "data");
        s.append(":");
        s.append(self.data.as_str());
        s.append("}");
        s
    }
}

/// Broadcasts notifications to every connected client.
pub struct WsHub {
    tx: Sender<String>,
}

impl WsHub {
    /// The number of messages the hub's channel holds for a slow subscriber.
    pub closed spec fn capacity(&self) -> nat {
        channel_capacity(self.tx)
    }

    /// A hub whose channel holds `CHANNEL_CAPACITY` messages.
    pub fn new() -> (hub: Self)
        ensures
            hub.capacity() == CHANNEL_CAPACITY,
    {
        let (tx, _rx) = broadcast_channel(CHANNEL_CAPACITY);
        proof {
            reveal_with_fuel(is_power_of_two, 10);
            assert(is_power_of_two(256));
            lemma_power_of_two_between(256, channel_capacity(tx));
        }
        WsHub { tx }
    }

    /// Sends the JSON form of the notification to every subscriber; when nobody
    /// subscribes the notification is dropped.
    pub fn notify(&self, notification: &WsNotification) {
        let _ = broadcast_send(&self.tx, notification.to_json());
    }

    /// A new subscriber to the notifications, reading the hub's channel.
    pub fn subscribe(&self) -> (rx: Receiver<String>)
        ensures
            receiver_capacity(rx) == self.capacity(),
    {
        broadcast_subscribe(&self.tx)
    }
}

impl Default for WsHub {
    fn default() -> (hub: Self)
        ensures
            hub.capacity() == CHANNEL_CAPACITY,
    {
        WsHub::new()
    }
}

} // verus!
