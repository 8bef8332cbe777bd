use orisa::{
    get_children, get_kind, get_name, send, tell, with_api, BridgeSlot, HandlerOutcome, Id,
    ObjectActor, ObjectActorState, ObjectApiExecutionState, ScriptFault, SerializableValue, World,
};

fn booted() -> World {
    let mut w = World::new();
    w.unfreeze_empty();
    w.create_defaults();
    w
}

#[test]
fn bridge_binds_the_active_actor() {
    let actor = ObjectActor::spawn(Id(3), ObjectActorState::empty());
    let mut slot = BridgeSlot::new();
    let got = with_api(&mut slot, &actor, |state| Ok::<Id, ScriptFault>(state.get_id()));
    assert_eq!(got.unwrap(), Id(3));
}

#[test]
fn bridge_scope_is_cleared_on_normal_exit() {
    let actor = ObjectActor::spawn(Id(1), ObjectActorState::empty());
    let mut slot = BridgeSlot::new();
    let _ = with_api(&mut slot, &actor, |_state| Ok::<u32, ScriptFault>(7));
    assert!(slot.active.is_none());
}

#[test]
fn bridge_scope_is_cleared_on_fault() {
    let actor = ObjectActor::spawn(Id(1), ObjectActorState::empty());
    let mut slot = BridgeSlot::new();
    let r = with_api(&mut slot, &actor, |_state| Err::<u32, ScriptFault>(ScriptFault {}));
    assert!(r.is_err());
    assert!(slot.active.is_none());
    // an independently scheduled invocation on another actor sees no residue
    let other = ObjectActor::spawn(Id(2), ObjectActorState::empty());
    let got = with_api(&mut slot, &other, |state| Ok::<Id, ScriptFault>(state.get_id()));
    assert_eq!(got.unwrap(), Id(2));
    assert!(slot.active.is_none());
}

#[test]
fn faulting_handler_does_not_poison_the_actor() {
    let mut w = booted();
    let a = w.create_in(Some(Id(0)));
    let m1 = orisa::ObjectMessage {
        immediate_sender: Id(0),
        name: String::from("boom"),
        payload: SerializableValue::Nil,
    };
    let m2 = orisa::ObjectMessage {
        immediate_sender: Id(0),
        name: String::from("fine"),
        payload: SerializableValue::Nil,
    };
    w.send_message(a, m1);
    w.send_message(a, m2);

    // message one: the handler faults; no state change becomes visible
    let id = w.next_pending().unwrap();
    assert_eq!(id, a);
    let got1 = w.take_message(id);
    assert_eq!(got1.name, "boom");
    w.apply_outcome(id, HandlerOutcome::Fault);
    assert_eq!(w.actors[a.0].as_ref().unwrap().state.data, "");

    // message two: processed normally by the same actor afterwards
    let id = w.next_pending().unwrap();
    assert_eq!(id, a);
    let got2 = w.take_message(id);
    assert_eq!(got2.name, "fine");
    w.apply_outcome(
        id,
        HandlerOutcome::Success(ObjectActorState { data: String::from("handled fine") }),
    );
    assert_eq!(w.actors[a.0].as_ref().unwrap().state.data, "handled fine");
}

#[test]
fn host_capabilities_answer_for_the_active_actor() {
    let mut w = booted();
    let alice = w.get_or_create_user("alice");
    let thing = w.create_in(Some(alice));
    let state = ObjectApiExecutionState::new(w.actors[alice.0].as_ref().unwrap());

    assert_eq!(get_children(&state, &w, alice), vec![thing]);
    assert_eq!(get_name(&state, &w, alice), "alice");
    assert_eq!(get_name(&state, &w, thing), "#2");
    assert_eq!(get_kind(&state, &w, alice), "user");
    assert_eq!(get_kind(&state, &w, thing), "object");
}

#[test]
fn host_send_marks_the_active_actor_as_sender() {
    let mut w = booted();
    let alice = w.get_or_create_user("alice");
    let thing = w.create_in(Some(alice));
    let state = ObjectApiExecutionState::new(w.actors[alice.0].as_ref().unwrap());

    send(&state, &mut w, thing, String::from("poke"), SerializableValue::Number(3));
    let m = w.take_message(thing);
    assert_eq!(m.immediate_sender, alice);
    assert_eq!(m.name, "poke");
}

#[test]
fn host_send_is_shut_off_at_the_cutover() {
    let mut w = booted();
    let _alice = w.get_or_create_user("alice");
    w.begin_freeze();
    // a scripted send is now a contract violation; the interpreter
    // boundary consults the frozen flag and ends the handler
    assert!(w.frozen);
}

#[test]
fn host_tell_fans_out_to_attached_connections() {
    let mut w = booted();
    let alice = w.get_or_create_user("alice");
    w.register_chat_connect(alice, 11);
    w.register_chat_connect(alice, 12);
    let state = ObjectApiExecutionState::new(w.actors[alice.0].as_ref().unwrap());

    let deliveries = tell(&state, &w, "hello there");
    assert_eq!(
        deliveries,
        vec![(11, String::from("hello there")), (12, String::from("hello there"))]
    );

    // with nothing attached, the event is dropped
    let bob = w.get_or_create_user("bob");
    let bstate = ObjectApiExecutionState::new(w.actors[bob.0].as_ref().unwrap());
    assert_eq!(tell(&bstate, &w, "anyone?"), Vec::<(u64, String)>::new());
}

#[test]
fn with_state_and_with_actor_thread_the_binding() {
    let actor = ObjectActor::spawn(Id(4), ObjectActorState::empty());
    let state = ObjectApiExecutionState::new(&actor);
    let id = state.with_state(|s| s.get_id());
    assert_eq!(id, Id(4));
    let mailbox_len = state.with_actor(&actor, |a| a.mailbox.len());
    assert_eq!(mailbox_len, 0);
}
