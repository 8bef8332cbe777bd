use orisa::{Id, ObjectMessage, SerializableValue, World};

fn booted() -> World {
    let mut w = World::new();
    w.unfreeze_empty();
    w.create_defaults();
    w
}

#[test]
fn entrance_is_first_object() {
    let w = booted();
    assert_eq!(w.entrance(), Id(0));
    assert_eq!(w.parent(Id(0)), None);
}

#[test]
fn create_in_allocates_sequential_ids() {
    let mut w = booted();
    let a = w.create_in(Some(Id(0)));
    let b = w.create_in(Some(Id(0)));
    let c = w.create_in(Some(a));
    assert_eq!(a, Id(1));
    assert_eq!(b, Id(2));
    assert_eq!(c, Id(3));
}

#[test]
fn parent_links_are_stable_across_later_creations() {
    let mut w = booted();
    let a = w.create_in(Some(Id(0)));
    let b = w.create_in(Some(a));
    for _ in 0..5 {
        w.create_in(Some(b));
    }
    assert_eq!(w.parent(a), Some(Id(0)));
    assert_eq!(w.parent(b), Some(a));
}

#[test]
fn children_come_back_in_ascending_id_order() {
    let mut w = booted();
    let a = w.create_in(Some(Id(0)));
    let _other = w.create_in(Some(a));
    let b = w.create_in(Some(Id(0)));
    let c = w.create_in(Some(Id(0)));
    assert_eq!(w.children(Id(0)), vec![a, b, c]);
    assert_eq!(w.children(c), Vec::<Id>::new());
}

#[test]
fn get_or_create_user_is_idempotent() {
    let mut w = booted();
    let before = w.state.objects.len();
    let alice1 = w.get_or_create_user("alice");
    let after_first = w.state.objects.len();
    let alice2 = w.get_or_create_user("alice");
    let after_second = w.state.objects.len();
    assert_eq!(alice1, alice2);
    assert_eq!(after_first, before + 1);
    assert_eq!(after_second, after_first);
    assert_eq!(w.parent(alice1), Some(w.entrance()));
}

#[test]
fn distinct_users_get_distinct_objects() {
    let mut w = booted();
    let alice = w.get_or_create_user("alice");
    let bob = w.get_or_create_user("bob");
    assert_ne!(alice, bob);
    assert_eq!(w.username(alice), "alice");
    assert_eq!(w.username(bob), "bob");
}

#[test]
fn username_falls_back_to_textual_id() {
    let mut w = booted();
    let a = w.create_in(Some(Id(0)));
    assert_eq!(w.username(a), "#1");
    assert_eq!(w.username(Id(0)), "#0");
    let _ = a;
}

#[test]
fn id_text_renders_decimal() {
    assert_eq!(Id(0).text(), "#0");
    assert_eq!(Id(42).text(), "#42");
    assert_eq!(Id(90210).text(), "#90210");
}

#[test]
fn kind_tells_users_from_plain_objects() {
    let mut w = booted();
    let alice = w.get_or_create_user("alice");
    let thing = w.create_in(Some(alice));
    assert_eq!(w.kind(alice), "user");
    assert_eq!(w.kind(thing), "object");
    assert_eq!(w.kind(Id(0)), "object");
}

#[test]
fn send_message_enqueues_in_fifo_order() {
    let mut w = booted();
    let a = w.create_in(Some(Id(0)));
    let first = ObjectMessage {
        immediate_sender: Id(0),
        name: String::from("first"),
        payload: SerializableValue::Number(1),
    };
    let second = ObjectMessage {
        immediate_sender: Id(0),
        name: String::from("second"),
        payload: SerializableValue::Nil,
    };
    w.send_message(a, first);
    w.send_message(a, second);
    let got1 = w.take_message(a);
    let got2 = w.take_message(a);
    assert_eq!(got1.name, "first");
    assert_eq!(got2.name, "second");
}

#[test]
fn conforming_callers_can_test_actor_liveness() {
    // sending to an id with no live actor is a contract violation; a
    // caller outside the library tests liveness through the registry
    // before routing, exactly as the process shell does
    let w = booted();
    assert!(w.actors.get(0).map_or(false, |a| a.is_some()));
    assert!(w.actors.get(99).is_none());
}

fn recipients(w: &World, id: Id) -> Vec<u64> {
    w.send_client_message(id, "x").into_iter().map(|d| d.0).collect()
}

#[test]
fn chat_connections_register_and_fan_out() {
    let mut w = booted();
    let a = w.create_in(Some(Id(0)));
    assert_eq!(recipients(&w, a), Vec::<u64>::new());
    w.register_chat_connect(a, 7);
    w.register_chat_connect(a, 9);
    assert_eq!(
        w.send_client_message(a, "hi"),
        vec![(7, String::from("hi")), (9, String::from("hi"))]
    );
    assert_eq!(recipients(&w, Id(0)), Vec::<u64>::new());
}

#[test]
fn chat_connection_removal_is_exact_and_tolerant() {
    let mut w = booted();
    let a = w.create_in(Some(Id(0)));
    w.register_chat_connect(a, 7);
    w.register_chat_connect(a, 9);
    w.register_chat_connect(a, 7);
    w.remove_chat_connection(a, 7);
    assert_eq!(recipients(&w, a), vec![9, 7]);
    w.remove_chat_connection(a, 100);
    assert_eq!(recipients(&w, a), vec![9, 7]);
    w.remove_chat_connection(a, 9);
    w.remove_chat_connection(a, 7);
    assert_eq!(recipients(&w, a), Vec::<u64>::new());
    w.remove_chat_connection(a, 7);
    assert_eq!(recipients(&w, a), Vec::<u64>::new());
}
