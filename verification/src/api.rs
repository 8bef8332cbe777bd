use vstd::prelude::*;
use crate::ids::Id;
use crate::object_actor::{ObjectActor, ObjectMessage, SerializableValue};
use crate::world::{children_of, user_name_of, World};
use crate::connections::reg_view;

verus! {

/// A runtime fault raised by scripted behavior code inside the sandbox. It
/// is caught at the bridge boundary: it must never crash the actor or the
/// process, and the message that caused it is considered handled.
#[derive(Debug, PartialEq, Eq, Structural, Clone, Copy)]
pub struct ScriptFault {}

/// The binding of "the currently active actor", established for the
/// dynamic extent of exactly one message being handled by exactly one
/// actor. The host capabilities resolve who is calling them through it.
pub struct ObjectApiExecutionState {
    pub id: Id,
}

/// The binding that a bridge invocation on the given actor establishes.
pub open spec fn active_state(id: Id) -> ObjectApiExecutionState {
    ObjectApiExecutionState { id }
}

impl ObjectApiExecutionState {
    /// Captures the identity of the actor being processed.
    pub fn new(actor: &ObjectActor) -> (r: ObjectApiExecutionState)
        ensures
            r == active_state(actor.id),
    {
        ObjectApiExecutionState { id: actor.id }
    }

    /// Runs `body` against the current binding and hands its result
    /// through unchanged.
    pub fn with_state<T, F: FnOnce(&ObjectApiExecutionState) -> T>(&self, body: F) -> (r: T)
        requires
            call_requires(body, (self,)),
        ensures
            call_ensures(body, (self,), r),
    {
        body(self)
    }

    /// Runs `body` against the actor that the binding stands for.
    pub fn with_actor<T, F: FnOnce(&ObjectActor) -> T>(
        &self,
        actor: &ObjectActor,
        body: F,
    ) -> (r: T)
        requires
            actor.id == self.id,
            call_requires(body, (actor,)),
        ensures
            call_ensures(body, (actor,), r),
    {
        body(actor)
    }

    /// The id of the currently active actor.
    pub fn get_id(&self) -> (r: Id)
        ensures
            r == self.id,
    {
        self.id
    }
}

/// The thread-scoped slot that holds the currently active actor while a
/// bridge invocation is running. It is never a process-wide global: one
/// slot belongs to one execution context.
pub struct BridgeSlot {
    pub active: Option<Id>,
}

impl BridgeSlot {
    /// A slot with no binding in it.
    pub fn new() -> (r: BridgeSlot)
        ensures
            r.active is None,
    {
        BridgeSlot { active: None }
    }
}

/// Establishes the scoped binding for one message on one actor, runs the
/// scripted handler, and unconditionally clears the binding on every exit
/// path — a handler fault comes back as an error value, and the binding is
/// gone either way, so no residual binding is observable by a later,
/// independently scheduled invocation on another actor.
pub fn with_api<T, F: FnOnce(ObjectApiExecutionState) -> Result<T, ScriptFault>>(
    slot: &mut BridgeSlot,
    actor: &ObjectActor,
    body: F,
) -> (r: Result<T, ScriptFault>)
    requires
        old(slot).active is None,
        call_requires(body, (active_state(actor.id),)),
    ensures
        final(slot).active is None,
        call_ensures(body, (active_state(actor.id),), r),
{
    slot.active = Some(actor.id);
    let state = ObjectApiExecutionState::new(actor);
    let r = body(state);
    slot.active = None;
    r
}

/// Host capability: the children of the given object, read through the
/// directory without taking exclusive access.
pub fn get_children(_state: &ObjectApiExecutionState, w: &World, object_id: Id) -> (r: Vec<Id>)
    requires
        w.wf(),
    ensures
        r@ == children_of(w.state@.objects, object_id),
{
    w.children(object_id)
}

/// Host capability: builds a directed message whose immediate sender is
/// the active actor and routes it through the directory's single
/// message-routing entry point. Calling it while the world is frozen, or
/// for a target with no live actor, is a fatal contract violation: the
/// interpreter boundary looks at the frozen flag before handing the call
/// through, and ends the handler on a violation.
pub fn send(
    state: &ObjectApiExecutionState,
    w: &mut World,
    object_id: Id,
    name: String,
    payload: SerializableValue,
)
    requires
        old(w).wf(),
        !old(w).frozen,
        old(w).has_actor(object_id),
    ensures
        final(w).wf(),
        final(w).has_actor(object_id),
        final(w).actor_at(object_id).mailbox@
            == old(w).actor_at(object_id).mailbox@.push(
                crate::object_actor::MailboxEntry::Directed(
                    ObjectMessage { immediate_sender: state.id, name, payload },
                ),
            ),
        old(w).actors_unchanged_except(*final(w), object_id),
        final(w).state == old(w).state,
        !final(w).frozen,
        final(w).chat_connections == old(w).chat_connections,
{
    w.send_message(
        object_id,
        ObjectMessage { immediate_sender: state.get_id(), name, payload },
    )
}

/// Host capability: delivers a chat-style text event to every connection
/// currently attached to the active actor. With none attached the event is
/// dropped, which is an expected absence, not an error.
pub fn tell(state: &ObjectApiExecutionState, w: &World, message: &str) -> (r: Vec<(u64, String)>)
    ensures
        reg_view(w.chat_connections).contains_key(state.id.idx() as usize) ==> {
            &&& r@.len() == reg_view(w.chat_connections)[state.id.idx() as usize].len()
            &&& forall|k: int| 0 <= k < r@.len()
                    ==> (#[trigger] r@[k]).0
                        == reg_view(w.chat_connections)[state.id.idx() as usize][k]
                        && r@[k].1@ == message@
        },
        !reg_view(w.chat_connections).contains_key(state.id.idx() as usize)
            ==> r@.len() == 0,
{
    w.send_client_message(state.get_id(), message)
}

/// Host capability: the user name an object is bound to, or its textual id
/// as a fallback.
pub fn get_name(_state: &ObjectApiExecutionState, w: &World, id: Id) -> (r: String)
    requires
        w.wf(),
    ensures
        user_name_of(w.state@.users, id) matches Some(n) ==> r@ == n,
        user_name_of(w.state@.users, id) is None ==> r@ == id.text_view(),
{
    w.username(id)
}

/// Host capability: the type/category tag of an object.
pub fn get_kind(_state: &ObjectApiExecutionState, w: &World, id: Id) -> (r: String)
    requires
        w.wf(),
    ensures
        user_name_of(w.state@.users, id) is Some ==> r@ == "user"@,
        user_name_of(w.state@.users, id) is None ==> r@ == "object"@,
{
    w.kind(id)
}

} // verus!
