//! Requests that sockets hand to the event loop, and what the loop makes of them.
use vstd::prelude::*;
use crate::frame::{Mask, Message, Payload, PayloadView};

verus! {

/// Something the event loop is asked to do.
pub struct Action {
    pub event: String,
    pub message: Message,
    pub socket_id: String,
}

/// What the event loop does with an action.
#[derive(Clone, Copy, Debug, PartialEq, Eq, Structural)]
pub enum ActionKind {
    /// Send the action's message to every socket.
    Broadcast,
    /// Forget the socket named by the action.
    DropSocket,
    /// Nothing.
    Ignore,
}

/// What an event name asks the event loop to do.
pub open spec fn action_kind(event: Seq<char>) -> ActionKind {
    if event == "broadcast"@ {
        ActionKind::Broadcast
    } else if event == "drop_socket"@ {
        ActionKind::DropSocket
    } else {
        ActionKind::Ignore
    }
}

impl Action {
    /// An action for `event`, with the placeholder text message "blah, blah"
    /// and no socket id, for actions that need neither.
    pub fn new(event: &str) -> (a: Action)
        ensures
            a.event@ == event@,
            a.message@.payload == PayloadView::Text("blah, blah"@),
            a.message@.mask == Mask::TextOp,
            a.socket_id@.len() == 0,
    {
        let msg = Message { payload: Payload::Text("blah, blah".to_owned()), mask: Mask::TextOp };
        Action { event: event.to_owned(), message: msg, socket_id: String::new() }
    }

    /// The action that sends `message` to every socket.
    pub fn broadcast(message: Message) -> (a: Action)
        ensures
            a.event@ == "broadcast"@,
            a.message == message,
            a.socket_id@.len() == 0,
    {
        Action { event: "broadcast".to_owned(), message, socket_id: String::new() }
    }

    /// What the event loop does with this action.
    pub fn kind(&self) -> (k: ActionKind)
        ensures
            k == action_kind(self.event@),
    {
        if self.event.eq(&"broadcast".to_owned()) {
            ActionKind::Broadcast
        } else if self.event.eq(&"drop_socket".to_owned()) {
            ActionKind::DropSocket
        } else {
            ActionKind::Ignore
        }
    }
}

/// What the echo server's connection pool does with an event.
#[derive(Clone, Copy, Debug, PartialEq, Eq, Structural)]
pub enum PoolCommand {
    /// Add the socket and hand the new list to the event loop.
    AddConnection,
    /// A connection went away: take it off the list and hand the new list
    /// to the event loop.
    DropConnection,
    /// An event the pool does not know; it is reported and ignored.
    Unknown,
}

pub open spec fn pool_command(event: Seq<char>) -> PoolCommand {
    if event == "new_connection"@ {
        PoolCommand::AddConnection
    } else if event == "drop_connection"@ {
        PoolCommand::DropConnection
    } else {
        PoolCommand::Unknown
    }
}

impl PoolCommand {
    pub fn from_event(event: &str) -> (c: PoolCommand)
        ensures
            c == pool_command(event@),
    {
        let e: String = event.to_owned();
        if e.eq(&"new_connection".to_owned()) {
            PoolCommand::AddConnection
        } else if e.eq(&"drop_connection".to_owned()) {
            PoolCommand::DropConnection
        } else {
            PoolCommand::Unknown
        }
    }
}


/// The position of the first id equal to `id`, if any.
pub open spec fn first_id_index(ids: Seq<String>, id: Seq<char>) -> Option<int> {
    if exists|i: int| 0 <= i < ids.len() && ids[i]@ == id {
        Some(
            choose|i: int|
                0 <= i < ids.len() && ids[i]@ == id && forall|j: int|
                    0 <= j < i ==> ids[j]@ != id,
        )
    } else {
        None
    }
}

/// One step of the connection pool: a new connection joins the list, a
/// connection that went away leaves it (the first one with its id), and the
/// result says whether the new list goes to the event loop, which it does
/// on connect and on disconnect. `ids` are the ids of the sockets in `list`,
/// in order.
pub fn pool_step<T>(
    list: &mut Vec<T>,
    ids: &Vec<String>,
    command: PoolCommand,
    socket: T,
    id: &String,
) -> (send: bool)
    requires
        old(list)@.len() == ids@.len(),
    ensures
        send == (command != PoolCommand::Unknown),
        command == PoolCommand::AddConnection ==> final(list)@ == old(list)@.push(socket),
        command == PoolCommand::DropConnection ==> match first_id_index(ids@, id@) {
            Some(i) => final(list)@ == old(list)@.remove(i),
            None => final(list)@ == old(list)@,
        },
        command == PoolCommand::Unknown ==> final(list)@ == old(list)@,
{
    match command {
        PoolCommand::AddConnection => {
            list.push(socket);
            true
        },
        PoolCommand::DropConnection => {
            let mut i: usize = 0;
            while i < ids.len()
                invariant
                    i <= ids@.len(),
                    command == PoolCommand::DropConnection,
                    list@ == old(list)@,
                    old(list)@.len() == ids@.len(),
                    forall|j: int| 0 <= j < i ==> ids@[j]@ != id@,
                decreases ids@.len() - i,
            {
                if ids[i].eq(id) {
                    proof {
                        let k = choose|k: int|
                            0 <= k < ids@.len() && ids@[k]@ == id@ && forall|j: int|
                                0 <= j < k ==> ids@[j]@ != id@;
                        assert(0 <= i < ids@.len() && ids@[i as int]@ == id@ && forall|j: int|
                            0 <= j < i ==> ids@[j]@ != id@);
                        if k < i {
                            assert(ids@[k]@ != id@);
                        } else if k > i {
                            assert(ids@[i as int]@ != id@);
                        }
                        assert(first_id_index(ids@, id@) == Some(i as int));
                    }
                    list.remove(i);
                    return true;
                }
                i = i + 1;
            }
            true
        },
        PoolCommand::Unknown => false,
    }
}

} // verus!
