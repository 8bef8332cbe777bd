use orisa::{HandlerOutcome, Id, ObjectActorState, ObjectMessage, SerializableValue, World};

fn booted() -> World {
    let mut w = World::new();
    w.unfreeze_empty();
    w.create_defaults();
    w
}

fn msg(name: &str) -> ObjectMessage {
    ObjectMessage {
        immediate_sender: Id(0),
        name: String::from(name),
        payload: SerializableValue::Nil,
    }
}

/// Processes every pending directed message, appending each message name to
/// the actor's durable state, the way a simple recording behavior would.
fn pump_recording(w: &mut World) {
    while let Some(id) = w.next_pending() {
        let m = w.take_message(id);
        let mut data = w.actors[id.0].as_ref().unwrap().state.data.clone();
        data.push_str(&m.name);
        data.push(';');
        w.apply_outcome(id, HandlerOutcome::Success(ObjectActorState { data }));
    }
}

#[test]
fn freeze_drains_every_mailbox_before_responses() {
    let mut w = booted();
    let a = w.create_in(Some(Id(0)));
    let b = w.create_in(Some(Id(0)));
    w.send_message(a, msg("a1"));
    w.send_message(a, msg("a2"));
    w.send_message(b, msg("b1"));

    w.begin_freeze();
    assert!(!w.drained());
    pump_recording(&mut w);
    assert!(w.drained());
    let image = w.freeze();

    let mut recorded: Vec<(Id, String)> = image
        .actor_state
        .iter()
        .map(|r| (r.id, r.state.data.clone()))
        .collect();
    recorded.sort_by_key(|p| p.0 .0);
    assert_eq!(
        recorded,
        vec![
            (Id(0), String::new()),
            (a, String::from("a1;a2;")),
            (b, String::from("b1;")),
        ]
    );
}

#[test]
fn no_send_after_cutover() {
    let mut w = booted();
    let a = w.create_in(Some(Id(0)));
    assert!(!w.frozen);
    w.begin_freeze();
    // admission is shut off: a send is now a contract violation, which
    // send_message's precondition excludes outright, and every caller
    // outside the library consults the flag first and stops
    assert!(w.frozen);
    // nothing was queued: the only mailbox entries are the freeze requests
    assert!(w.drained());
    let image = w.freeze();
    w.unfreeze_read(image).unwrap();
    // after a successful unfreeze, traffic is admitted again
    assert!(!w.frozen);
    w.send_message(a, msg("ontime"));
    assert_eq!(w.take_message(a).name, "ontime");
}

#[test]
fn round_trip_restores_graph_and_states() {
    let mut w = booted();
    let child = w.create_in(Some(Id(0)));
    w.apply_outcome(Id(0), HandlerOutcome::Success(ObjectActorState { data: String::from("S0") }));
    w.apply_outcome(child, HandlerOutcome::Success(ObjectActorState { data: String::from("S1") }));
    let alice = w.get_or_create_user("alice");

    w.begin_freeze();
    pump_recording(&mut w);
    let image = w.freeze();

    w.unfreeze_read(image).unwrap();
    assert_eq!(w.entrance(), Id(0));
    assert_eq!(w.parent(child), Some(Id(0)));
    assert_eq!(w.parent(alice), Some(Id(0)));
    assert_eq!(w.get_or_create_user("alice"), alice);
    assert_eq!(w.actors[0].as_ref().unwrap().state.data, "S0");
    assert_eq!(w.actors[child.0].as_ref().unwrap().state.data, "S1");
    assert_eq!(w.actors[alice.0].as_ref().unwrap().state.data, "");
}

#[test]
fn object_without_image_entry_starts_empty() {
    let mut w = booted();
    let a = w.create_in(Some(Id(0)));
    w.begin_freeze();
    pump_recording(&mut w);
    let mut image = w.freeze();
    // forward compatibility: drop one entry; the object still restores
    image.actor_state.retain(|r| r.id != a);
    w.unfreeze_read(image).unwrap();
    assert_eq!(w.actors[a.0].as_ref().unwrap().state.data, "");
}

#[test]
fn malformed_image_is_refused_distinctly() {
    let mut w = booted();
    w.begin_freeze();
    pump_recording(&mut w);
    let mut image = w.freeze();
    // break the dense-id invariant
    image.world_state.objects[0].id = Id(5);
    let r = w.unfreeze_read(image);
    assert!(r.is_err());
    // the directory is untouched: still frozen, still restorable
    let mut w2 = booted();
    w2.begin_freeze();
    let image2 = w2.freeze();
    assert!(w.unfreeze_read(image2).is_ok());
}

#[test]
fn unfreeze_empty_opens_a_fresh_world() {
    let mut w = World::new();
    assert_eq!(w.state.objects.len(), 0);
    w.unfreeze_empty();
    w.create_defaults();
    assert_eq!(w.entrance(), Id(0));
    w.send_message(Id(0), msg("hello"));
    assert_eq!(w.take_message(Id(0)).name, "hello");
}

#[test]
fn freeze_of_idle_world_is_immediate() {
    let mut w = booted();
    let a = w.create_in(Some(Id(0)));
    w.begin_freeze();
    // no directed traffic was pending, so the drain is already complete
    assert!(w.drained());
    let image = w.freeze();
    assert_eq!(image.world_state.objects.len(), 2);
    assert_eq!(image.actor_state.len(), 2);
    let _ = a;
}

#[test]
fn freeze_respond_reports_state_and_terminates_the_actor() {
    let mut w = booted();
    let a = w.create_in(Some(Id(0)));
    w.apply_outcome(a, HandlerOutcome::Success(ObjectActorState { data: String::from("D") }));
    w.begin_freeze();
    // the freeze request is the only mailbox entry, so the actor may answer
    let resp = w.freeze_respond(a);
    assert_eq!(resp.id, a);
    assert_eq!(resp.state.data, "D");
    assert!(w.actors[a.0].is_none());
}
