use vstd::prelude::*;

verus! {

/// Identifier of a logical process ("machine") in the simulation.
pub type MachineId = usize;

/// Virtual time is a non-negative integer coordinate; it is not wall-clock time.
pub type VirtualTime = usize;

/// The payload carried by a message.
///
/// Annihilation matching needs a stable identity for the payload, not deep
/// equality of its contents: a message and its antimessage share the payload
/// identity, while two independently produced payloads with equal text do not.
/// The identity is an interned id chosen by whoever creates the payload.
#[derive(Debug)]
pub struct MessagePayload {
    pub id: usize,
    pub data: String,
}

impl MessagePayload {
    pub fn new(id: usize, data: String) -> (r: Self)
        ensures
            r.id == id,
            r.data == data,
    {
        MessagePayload { id, data }
    }
}

impl Clone for MessagePayload {
    fn clone(&self) -> (r: Self)
        ensures
            r == *self,
    {
        MessagePayload { id: self.id, data: self.data.clone() }
    }
}

/// The polarity of a message: an ordinary message, or the antimessage that
/// cancels it when both meet in a queue.
#[derive(Debug, Clone, Copy, PartialEq, Eq, Structural)]
pub enum Sign {
    Message,
    Antimessage,
}

/// An immutable event record: when it was sent, when it is to be received,
/// by whom, its polarity, and a shared payload.
#[derive(Debug)]
pub struct Message {
    pub send_time: VirtualTime,
    pub rec_time: VirtualTime,
    pub sender: MachineId,
    pub receiver: MachineId,
    pub sign: Sign,
    pub message: MessagePayload,
}

/// Two messages annihilate each other when they agree on both timestamps,
/// both endpoints and the payload identity; the sign is deliberately ignored,
/// so a message matches its own antimessage.
pub open spec fn annih_eq(a: Message, b: Message) -> bool {
    &&& a.send_time == b.send_time
    &&& a.rec_time == b.rec_time
    &&& a.sender == b.sender
    &&& a.receiver == b.receiver
    &&& a.message.id == b.message.id
}

/// The antimessage twin of a message: the same record with a negative sign.
pub open spec fn negate(m: Message) -> Message {
    Message { sign: Sign::Antimessage, ..m }
}

impl Message {
    pub fn new(
        send_time: VirtualTime,
        rec_time: VirtualTime,
        sender: MachineId,
        receiver: MachineId,
        sign: Sign,
        message: MessagePayload,
    ) -> (r: Self)
        ensures
            r.send_time == send_time,
            r.rec_time == rec_time,
            r.sender == sender,
            r.receiver == receiver,
            r.sign == sign,
            r.message == message,
    {
        Message { send_time, rec_time, sender, receiver, sign, message }
    }
}

impl Clone for Message {
    fn clone(&self) -> (r: Self)
        ensures
            r == *self,
    {
        Message {
            send_time: self.send_time,
            rec_time: self.rec_time,
            sender: self.sender,
            receiver: self.receiver,
            sign: self.sign,
            message: self.message.clone(),
        }
    }
}

/// Equality of messages is annihilation equivalence: the queues treat a
/// message and its antimessage as duplicates of one another.
impl PartialEq for Message {
    fn eq(&self, other: &Self) -> (r: bool) {
        self.send_time == other.send_time && self.rec_time == other.rec_time
            && self.sender == other.sender && self.receiver == other.receiver
            && self.message.id == other.message.id
    }
}

impl Eq for Message {

}

impl vstd::std_specs::cmp::PartialEqSpecImpl for Message {
    open spec fn obeys_eq_spec() -> bool {
        true
    }

    open spec fn eq_spec(&self, other: &Message) -> bool {
        annih_eq(*self, *other)
    }
}

} // verus!
