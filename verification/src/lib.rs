//! A persistent multi-user virtual-object server core: a directory of
//! addressable objects forming a parent/child forest, one sequential actor
//! per object with a FIFO mailbox, a scoped scripting bridge exposing host
//! capabilities to per-object behavior code, and a freeze/unfreeze snapshot
//! protocol that produces an exact, resumable image of the whole world.

mod api;
mod connections;
mod ids;
mod object_actor;
mod strings;
mod world;

pub use api::{
    active_state, get_children, get_kind, get_name, send, tell, with_api, BridgeSlot,
    ObjectApiExecutionState, ScriptFault,
};
pub use connections::{mm_view, reg_view};
pub use ids::{dec_digits, digit_char, Id};
pub use object_actor::{
    FreezeMessage, FreezeResponse, HandlerOutcome, MailboxEntry, ObjectActor, ObjectActorState,
    ObjectMessage, SerializableValue,
};
pub use world::{
    children_of, collect_states, count_directed, law_cutover_adds_no_traffic,
    law_drain_progress, law_freeze_response_is_last, law_id_stability,
    law_restore_round_trip, law_user_idempotence, lemma_collect_states_lookup, remove_first,
    restored_data, slot_pending, state_lookup, state_wf, total_pending, user_lookup, user_name_of,
    LoadError, Object, SaveState,
    SaveStateV, UserEntry, World, WorldState, WorldStateV,
};
