use vstd::prelude::*;
use crate::ids::Id;

verus! {

/// An open, self-describing value carried as the payload of a directed
/// message. Scripted behaviors define their own message vocabulary, so the
/// host treats the payload as a tagged union rather than a fixed schema.
pub enum SerializableValue {
    Nil,
    Boolean(bool),
    Number(i64),
    Text(String),
}

/// A directed message: who sent it, a behavior-chosen name tag, and an
/// open payload. The receiving behavior decides how to interpret the tag.
pub struct ObjectMessage {
    pub immediate_sender: Id,
    pub name: String,
    pub payload: SerializableValue,
}

/// The opaque, serializable durable state owned and mutated exclusively by
/// one object's scripted behavior. The directory never inspects it; it is
/// carried only at snapshot time.
pub struct ObjectActorState {
    pub data: String,
}

impl ObjectActorState {
    /// A fresh actor starts with empty durable state.
    pub fn empty() -> (r: ObjectActorState)
        ensures
            r.data@ == Seq::<char>::empty(),
    {
        ObjectActorState { data: String::new() }
    }
}

/// The request broadcast to every actor at the freeze cutover. Because each
/// mailbox is FIFO and the request is enqueued after the cutover, it is
/// provably the last entry an actor ever processes.
pub struct FreezeMessage {}

/// An actor's answer to the freeze request: its identity and its serialized
/// durable state at the moment it terminated.
pub struct FreezeResponse {
    pub id: Id,
    pub state: ObjectActorState,
}

/// One entry in an actor's FIFO mailbox: either an ordinary directed
/// message or the freeze request.
pub enum MailboxEntry {
    Directed(ObjectMessage),
    Freeze(FreezeMessage),
}

/// What one scripted-behavior invocation produced for the actor's durable
/// state: either a complete replacement state (the handler returned without
/// fault) or a fault, in which case no state change may become visible.
pub enum HandlerOutcome {
    Success(ObjectActorState),
    Fault,
}

/// One isolated, sequential execution unit bound permanently to one object:
/// its identity, its durable state, and its FIFO mailbox of pending entries.
pub struct ObjectActor {
    pub id: Id,
    pub state: ObjectActorState,
    pub mailbox: Vec<MailboxEntry>,
}

impl ObjectActor {
    /// FIFO discipline for the freeze protocol: a freeze request, if
    /// present, stands at the very end of the mailbox, so every directed
    /// message enqueued before the cutover is processed first.
    pub open spec fn wf(self) -> bool {
        forall|j: int| 0 <= j < self.mailbox@.len() - 1 ==> (#[trigger] self.mailbox@[j]) is Directed
    }

    /// No freeze request is pending anywhere in the mailbox.
    pub open spec fn no_freeze_pending(self) -> bool {
        forall|j: int| 0 <= j < self.mailbox@.len() ==> (#[trigger] self.mailbox@[j]) is Directed
    }

    /// A freshly spawned actor: empty mailbox, given durable state.
    pub fn spawn(id: Id, state: ObjectActorState) -> (r: ObjectActor)
        ensures
            r.id == id,
            r.state == state,
            r.mailbox@ == Seq::<MailboxEntry>::empty(),
            r.wf(),
            r.no_freeze_pending(),
    {
        ObjectActor { id, state, mailbox: Vec::new() }
    }
}

} // verus!
