//! The event loop's bookkeeping: the sockets it can reach and the ids that
//! name them.
use vstd::prelude::*;
use crate::action::{action_kind, Action, ActionKind};
use crate::frame::Message;
use crate::text::string_of;

verus! {

#[verifier::external_type_specification]
#[verifier::external_body]
#[verifier::reject_recursive_types(T)]
pub struct ExSender<T>(std::sync::mpsc::Sender<T>);

/// A connected socket as the event loop knows it: its id and the channel to
/// its writing task.
pub struct SocketMessenger {
    pub id: String,
    pub to_socket: std::sync::mpsc::Sender<Message>,
}

/// Adds a newly connected socket.
pub fn add_socket(messengers: &mut Vec<SocketMessenger>, messenger: SocketMessenger)
    ensures
        final(messengers)@ == old(messengers)@.push(messenger),
{
    messengers.push(messenger);
}

/// The position of the first messenger whose id is `id`, if any.
pub fn socket_index(messengers: &Vec<SocketMessenger>, id: &String) -> (r: Option<usize>)
    ensures
        match r {
            Some(i) => i < messengers@.len() && messengers@[i as int].id@ == id@ && forall|j: int|
                0 <= j < i ==> messengers@[j].id@ != id@,
            None => forall|j: int| 0 <= j < messengers@.len() ==> messengers@[j].id@ != id@,
        },
{
    let mut i: usize = 0;
    while i < messengers.len()
        invariant
            i <= messengers@.len(),
            forall|j: int| 0 <= j < i ==> messengers@[j].id@ != id@,
        decreases messengers@.len() - i,
    {
        if messengers[i].id.eq(id) {
            return Some(i);
        }
        i = i + 1;
    }
    None
}

/// Forgets the first socket whose id is `id`; the others keep their order.
/// Nothing changes when no socket has that id.
pub fn drop_socket(messengers: &mut Vec<SocketMessenger>, id: &String)
    ensures
        (forall|j: int| 0 <= j < old(messengers)@.len() ==> old(messengers)@[j].id@ != id@)
            ==> final(messengers)@ == old(messengers)@,
        forall|i: int|
            0 <= i < old(messengers)@.len() && old(messengers)@[i].id@ == id@ && (forall|j: int|
                0 <= j < i ==> old(messengers)@[j].id@ != id@) ==> final(messengers)@ == old(
                messengers,
            )@.remove(i),
{
    match socket_index(messengers, id) {
        Some(i) => {
            messengers.remove(i);
        },
        None => {},
    }
}

/// `rand::random::<char>()`: a character drawn from the thread's generator.
/// Nothing is stated of which one: it is chance. The call panics only if the
/// operating system cannot seed the generator.
#[verifier::external_body]
fn random_char() -> char {
    rand::random::<char>()
}

/// A fresh socket id: fifteen random characters, drawn one by one and put
/// together, in order, by `string_of`.
pub fn generate_socket_id() -> (id: String)
    ensures
        id@.len() == 15,
{
    let mut drawn: Vec<char> = Vec::new();
    let mut x: usize = 0;
    while x < 15
        invariant
            x <= 15,
            drawn@.len() == x,
        decreases 15 - x,
    {
        drawn.push(random_char());
        x = x + 1;
    }
    string_of(&drawn, 0, 15)
}


/// One action taken by the event loop. A broadcast goes to every socket,
/// once each, in order: the result lists the positions of the sockets the
/// action's message is sent to. A drop forgets the first socket with the
/// action's id and sends nothing; any other action changes nothing.
pub fn take_action(messengers: &mut Vec<SocketMessenger>, action: &Action) -> (targets: Vec<usize>)
    ensures
        action_kind(action.event@) == ActionKind::Broadcast ==> final(messengers)@ == old(
            messengers,
        )@ && targets@ == Seq::new(old(messengers)@.len(), |i: int| i as usize),
        action_kind(action.event@) != ActionKind::Broadcast ==> targets@.len() == 0,
        action_kind(action.event@) == ActionKind::Ignore ==> final(messengers)@ == old(
            messengers,
        )@,
        action_kind(action.event@) == ActionKind::DropSocket ==> ((forall|j: int|
            0 <= j < old(messengers)@.len() ==> old(messengers)@[j].id@ != action.socket_id@)
            ==> final(messengers)@ == old(messengers)@),
        action_kind(action.event@) == ActionKind::DropSocket ==> (forall|i: int|
            0 <= i < old(messengers)@.len() && old(messengers)@[i].id@ == action.socket_id@
                && (forall|j: int| 0 <= j < i ==> old(messengers)@[j].id@ != action.socket_id@)
                ==> final(messengers)@ == old(messengers)@.remove(i)),
{
    let mut targets: Vec<usize> = Vec::new();
    match action.kind() {
        ActionKind::Broadcast => {
            let mut i: usize = 0;
            while i < messengers.len()
                invariant
                    i <= messengers@.len(),
                    targets@ == Seq::new(i as nat, |k: int| k as usize),
                decreases messengers@.len() - i,
            {
                targets.push(i);
                assert(targets@ =~= Seq::new((i + 1) as nat, |k: int| k as usize));
                i = i + 1;
            }
        },
        ActionKind::DropSocket => {
            drop_socket(messengers, &action.socket_id);
        },
        ActionKind::Ignore => {},
    }
    targets
}

} // verus!
