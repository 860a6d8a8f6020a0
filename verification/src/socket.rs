//! What a socket does with messages: the JSON envelope of events, finding the
//! handler of an event, and the echo server's replies.
use vstd::prelude::*;
use crate::frame::{Mask, Message, Payload, PayloadView};

verus! {

/// The envelope of an event: its name and its data, itself JSON text.
pub struct JsonMessage {
    pub event: String,
    pub data: String,
}

impl JsonMessage {
    pub fn new(event: &str, data: String) -> (m: JsonMessage)
        ensures
            m.event@ == event@,
            m.data == data,
    {
        JsonMessage { event: event.to_owned(), data }
    }
}

/// The text message that carries `text`.
pub fn text_message(text: String) -> (m: Message)
    ensures
        m@.payload == PayloadView::Text(text@),
        m@.mask == Mask::TextOp,
{
    Message { payload: Payload::Text(text), mask: Mask::TextOp }
}

/// The position of the first handler registered for `name`, if any.
pub fn event_index(names: &Vec<String>, name: &String) -> (r: Option<usize>)
    ensures
        match r {
            Some(i) => i < names@.len() && names@[i as int]@ == name@ && forall|j: int|
                0 <= j < i ==> names@[j]@ != name@,
            None => forall|j: int| 0 <= j < names@.len() ==> names@[j]@ != name@,
        },
{
    let mut i: usize = 0;
    while i < names.len()
        invariant
            i <= names@.len(),
            forall|j: int| 0 <= j < i ==> names@[j]@ != name@,
        decreases names@.len() - i,
    {
        if names[i].eq(name) {
            return Some(i);
        }
        i = i + 1;
    }
    None
}

/// The answer to a received payload: text comes back prefixed with
/// "Received: ", bytes come back as they are; a close frame gets none.
pub fn echo_reply(payload: Payload) -> (r: Option<Message>)
    ensures
        match payload@ {
            PayloadView::Text(p) => r matches Some(m) && m@.payload == PayloadView::Text(
                "Received: "@ + p,
            ) && m@.mask == Mask::TextOp,
            PayloadView::Binary(p) => r matches Some(m) && m@.payload == PayloadView::Binary(p)
                && m@.mask == Mask::BinaryOp,
            PayloadView::Empty => r is None,
        },
{
    match payload {
        Payload::Text(p) => {
            let mut reply: String = "Received: ".to_owned();
            reply.append(p.as_str());
            Some(Message { payload: Payload::Text(reply), mask: Mask::TextOp })
        },
        Payload::Binary(p) => Some(Message { payload: Payload::Binary(p), mask: Mask::BinaryOp }),
        Payload::Empty => None,
    }
}

} // verus!
