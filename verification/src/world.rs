use vstd::prelude::*;
use crate::ids::Id;
use crate::connections::{reg_view, reg_insert, reg_get, reg_remove};
use multimap::MultiMap;
use crate::object_actor::{
    ObjectActor, ObjectActorState, ObjectMessage, MailboxEntry, HandlerOutcome,
};

verus! {

pub use crate::object_actor::FreezeMessage;
pub use crate::object_actor::FreezeResponse;

/// A node of the world's parent/child forest. Every object except the
/// entrance has exactly one parent, fixed at creation; there is no
/// re-parenting operation.
#[derive(Debug, PartialEq, Eq, Structural, Clone, Copy)]
pub struct Object {
    pub id: Id,
    pub parent_id: Option<Id>,
}

/// One entry of the user registry: an external user name and the id of the
/// object standing for that user's in-world presence.
pub struct UserEntry {
    pub name: String,
    pub id: Id,
}

/// The directory's persistable facts: the ordered sequence of all objects
/// (index = id), the entrance id (None only during the initialization
/// window), and the user-name-to-id mapping.
pub struct WorldState {
    pub objects: Vec<Object>,
    pub entrance_id: Option<Id>,
    pub users: Vec<UserEntry>,
}

/// Mathematical model of a `WorldState`.
pub ghost struct WorldStateV {
    pub objects: Seq<Object>,
    pub entrance: Option<Id>,
    pub users: Seq<(Seq<char>, Id)>,
}

impl View for WorldState {
    type V = WorldStateV;

    open spec fn view(&self) -> WorldStateV {
        WorldStateV {
            objects: self.objects@,
            entrance: self.entrance_id,
            users: self.users@.map_values(|u: UserEntry| (u.name@, u.id)),
        }
    }
}

impl WorldState {
    /// An equal copy of the persistable facts, taken at the quiescent
    /// instant so that the save image is independent of the live directory.
    pub fn snapshot(&self) -> (r: WorldState)
        ensures
            r@ == self@,
    {
        let mut objects: Vec<Object> = Vec::new();
        let n = self.objects.len();
        let mut i: usize = 0;
        while i < n
            invariant
                n == self.objects@.len(),
                i <= n,
                objects@ == self.objects@.take(i as int),
            decreases n - i,
        {
            objects.push(self.objects[i]);
            proof {
                assert(objects@ =~= self.objects@.take(i + 1));
            }
            i = i + 1;
        }
        let mut users: Vec<UserEntry> = Vec::new();
        let m = self.users.len();
        let mut j: usize = 0;
        while j < m
            invariant
                m == self.users@.len(),
                j <= m,
                users@ == self.users@.take(j as int),
            decreases m - j,
        {
            users.push(UserEntry { name: self.users[j].name.clone(), id: self.users[j].id });
            proof {
                assert(users@.last() == self.users@[j as int]);
                assert(users@ =~= self.users@.take(j + 1));
            }
            j = j + 1;
        }
        let r = WorldState { objects, entrance_id: self.entrance_id, users };
        proof {
            assert(r.objects@ =~= self.objects@);
            assert(r.users@ =~= self.users@);
            assert(r@.users =~= self@.users);
        }
        r
    }
}

/// Well-formedness of the persistable facts: ids are the dense indices of
/// the object sequence, parent links point to earlier-created objects, the
/// entrance (if set) exists, and the user registry binds distinct names to
/// distinct existing objects.
pub open spec fn state_wf(v: WorldStateV) -> bool {
    &&& forall|i: int| 0 <= i < v.objects.len() ==> (#[trigger] v.objects[i]).id.idx() == i
    &&& forall|i: int| 0 <= i < v.objects.len()
            ==> ((#[trigger] v.objects[i]).parent_id matches Some(p) ==> p.idx() < i)
    &&& (v.entrance matches Some(e) ==> e.idx() < v.objects.len())
    &&& forall|i: int, j: int| 0 <= i < v.users.len() && 0 <= j < v.users.len() && i != j
            ==> (#[trigger] v.users[i]).0 != (#[trigger] v.users[j]).0
                && v.users[i].1 != v.users[j].1
    &&& forall|i: int| 0 <= i < v.users.len()
            ==> (#[trigger] v.users[i]).1.idx() < v.objects.len()
}

/// The user registry entry for `name`, scanning from position `i`.
pub open spec fn user_lookup_at(users: Seq<(Seq<char>, Id)>, name: Seq<char>, i: int) -> Option<Id>
    decreases users.len() - i,
{
    if i < 0 || i >= users.len() {
        None
    } else if users[i].0 == name {
        Some(users[i].1)
    } else {
        user_lookup_at(users, name, i + 1)
    }
}

/// The id bound to a user name, if any.
pub open spec fn user_lookup(users: Seq<(Seq<char>, Id)>, name: Seq<char>) -> Option<Id> {
    user_lookup_at(users, name, 0)
}

/// The user name bound to an id, if any, scanning from position `i`.
pub open spec fn user_name_at(users: Seq<(Seq<char>, Id)>, id: Id, i: int) -> Option<Seq<char>>
    decreases users.len() - i,
{
    if i < 0 || i >= users.len() {
        None
    } else if users[i].1 == id {
        Some(users[i].0)
    } else {
        user_name_at(users, id, i + 1)
    }
}

/// The user name bound to an id, if any.
pub open spec fn user_name_of(users: Seq<(Seq<char>, Id)>, id: Id) -> Option<Seq<char>> {
    user_name_at(users, id, 0)
}

/// The ids of all objects whose parent is `id`, in ascending-id order.
pub open spec fn children_of(objs: Seq<Object>, id: Id) -> Seq<Id>
    decreases objs.len(),
{
    if objs.len() == 0 {
        Seq::<Id>::empty()
    } else {
        children_of(objs.drop_last(), id)
            + if objs.last().parent_id == Some(id) { seq![objs.last().id] } else { Seq::<Id>::empty() }
    }
}

/// The sole source of truth for which objects exist, their parent/child
/// relationships, which actor answers for each object id, which client
/// connections are attached to which object, and whether the world is
/// currently frozen.
pub struct World {
    pub state: WorldState,
    pub actors: Vec<Option<ObjectActor>>,
    pub chat_connections: Option<MultiMap<usize, u64>>,
    pub frozen: bool,
}

impl World {
    /// Directory invariant: the persistable facts are well-formed, the
    /// actor registry runs in step with the object sequence, every live
    /// actor is bound to its own slot with FIFO freeze discipline, and
    /// while the world is not frozen no freeze request is pending anywhere.
    pub open spec fn wf(self) -> bool {
        &&& state_wf(self.state@)
        &&& self.actors@.len() == self.state@.objects.len()
        &&& forall|i: int| 0 <= i < self.actors@.len()
                ==> ((#[trigger] self.actors@[i]) matches Some(a)
                    ==> a.wf() && a.id.idx() == i)
        &&& !self.frozen ==> forall|i: int| 0 <= i < self.actors@.len()
                ==> ((#[trigger] self.actors@[i]) matches Some(a) ==> a.no_freeze_pending())
    }

    /// A live actor answers for `id`.
    pub open spec fn has_actor(self, id: Id) -> bool {
        id.idx() < self.actors@.len() && self.actors@[id.idx() as int] is Some
    }

    /// The live actor bound to `id`.
    pub open spec fn actor_at(self, id: Id) -> ObjectActor {
        self.actors@[id.idx() as int]->Some_0
    }

    /// Every mailbox entry other than `id`'s is as it was.
    pub open spec fn actors_unchanged_except(self, post: World, id: Id) -> bool {
        &&& post.actors@.len() == self.actors@.len()
        &&& forall|i: int| 0 <= i < self.actors@.len() && i != id.idx()
                ==> post.actors@[i] == (#[trigger] self.actors@[i])
    }

    /// A new directory: no objects, no users, no entrance, no live actors,
    /// no attached connections, and frozen until a restore (or the empty
    /// bootstrap) opens it for traffic.
    pub fn new() -> (w: World)
        ensures
            w.wf(),
            w.frozen,
            w.state@.objects.len() == 0,
            w.state@.users.len() == 0,
            w.state@.entrance is None,
            w.actors@.len() == 0,
            reg_view(w.chat_connections) == Map::<usize, Seq<u64>>::empty(),
    {
        let w = World {
            state: WorldState { objects: Vec::new(), entrance_id: None, users: Vec::new() },
            actors: Vec::new(),
            chat_connections: None,
            frozen: true,
        };
        proof {
            assert(w.state@.users =~= Seq::<(Seq<char>, Id)>::empty());
        }
        w
    }

    /// Allocates the next sequential id, appends the object record, and
    /// spawns a fresh actor bound to that id. No failure mode: the frozen
    /// flag governs message routing, not creation, and the world is built
    /// with its defaults before the first unfreeze opens it for traffic.
    pub fn create_in(&mut self, parent: Option<Id>) -> (id: Id)
        requires
            old(self).wf(),
            parent matches Some(p) ==> p.idx() < old(self).state@.objects.len(),
        ensures
            final(self).wf(),
            id.idx() == old(self).state@.objects.len(),
            final(self).state@.objects == old(self).state@.objects.push(
                Object { id, parent_id: parent },
            ),
            final(self).state@.entrance == old(self).state@.entrance,
            final(self).state@.users == old(self).state@.users,
            final(self).actors@.len() == old(self).actors@.len() + 1,
            forall|i: int| 0 <= i < old(self).actors@.len()
                ==> final(self).actors@[i] == (#[trigger] old(self).actors@[i]),
            final(self).has_actor(id),
            final(self).actor_at(id).id == id,
            final(self).actor_at(id).state.data@ == Seq::<char>::empty(),
            final(self).actor_at(id).mailbox@ == Seq::<MailboxEntry>::empty(),
            final(self).frozen == old(self).frozen,
            final(self).chat_connections == old(self).chat_connections,
    {
        let id = Id(self.state.objects.len());
        let actor = ObjectActor::spawn(id, ObjectActorState::empty());
        self.actors.push(Some(actor));
        self.state.objects.push(Object { id, parent_id: parent });
        proof {
            assert(final(self).state@.users =~= old(self).state@.users);
        }
        id
    }

    /// The designated root object. May only be asked for once
    /// initialization has completed.
    pub fn entrance(&self) -> (r: Id)
        requires
            self.state@.entrance is Some,
        ensures
            r == self.state@.entrance->Some_0,
    {
        self.state.entrance_id.unwrap()
    }

    /// The fresh-bootstrap step: creates the entrance object at the root of
    /// the forest, with its own fresh actor, and designates it.
    pub fn create_defaults(&mut self)
        requires
            old(self).wf(),
        ensures
            final(self).wf(),
            final(self).state@.objects == old(self).state@.objects.push(
                Object {
                    id: Id(old(self).state@.objects.len() as usize),
                    parent_id: None,
                },
            ),
            final(self).state@.entrance matches Some(e)
                && e.idx() == old(self).state@.objects.len(),
            final(self).state@.users == old(self).state@.users,
            final(self).actors@.len() == old(self).actors@.len() + 1,
            forall|i: int| 0 <= i < old(self).actors@.len()
                ==> final(self).actors@[i] == (#[trigger] old(self).actors@[i]),
            final(self).has_actor(Id(old(self).state@.objects.len() as usize)),
            final(self).actor_at(Id(old(self).state@.objects.len() as usize)).mailbox@
                == Seq::<MailboxEntry>::empty(),
            final(self).actor_at(Id(old(self).state@.objects.len() as usize)).state.data@
                == Seq::<char>::empty(),
            final(self).frozen == old(self).frozen,
            final(self).chat_connections == old(self).chat_connections,
    {
        let entrance = self.create_in(None);
        self.state.entrance_id = Some(entrance);
    }

    /// The parent link of an existing object, as supplied at its creation.
    pub fn parent(&self, of: Id) -> (r: Option<Id>)
        requires
            self.wf(),
            of.idx() < self.state@.objects.len(),
        ensures
            r == self.state@.objects[of.idx() as int].parent_id,
    {
        self.state.objects[of.0].parent_id
    }

    /// All objects whose parent is `id`, in ascending-id order,
    /// re-derived on every call.
    pub fn children(&self, id: Id) -> (r: Vec<Id>)
        requires
            self.wf(),
        ensures
            r@ == children_of(self.state@.objects, id),
    {
        let mut r: Vec<Id> = Vec::new();
        let n = self.state.objects.len();
        for i in 0..n
            invariant
                n == self.state@.objects.len(),
                r@ == children_of(self.state@.objects.take(i as int), id),
        {
            let o = self.state.objects[i];
            proof {
                assert(self.state@.objects.take(i + 1).drop_last()
                    =~= self.state@.objects.take(i as int));
                assert(self.state@.objects.take(i + 1).last() == self.state@.objects[i as int]);
            }
            let matches_parent = match o.parent_id {
                Some(p) => p == id,
                None => false,
            };
            if matches_parent {
                r.push(o.id);
            }
        }
        proof {
            assert(self.state@.objects.take(n as int) =~= self.state@.objects);
        }
        r
    }

    /// Idempotent user binding: an existing mapping is returned unchanged;
    /// otherwise a new object is created under the entrance and recorded
    /// for the name. No duplicate object is ever created for one name.
    pub fn get_or_create_user(&mut self, username: &str) -> (r: Id)
        requires
            old(self).wf(),
            user_lookup(old(self).state@.users, username@) is Some
                || old(self).state@.entrance is Some,
        ensures
            final(self).wf(),
            user_lookup(old(self).state@.users, username@) matches Some(id) ==> {
                &&& r == id
                &&& *final(self) == *old(self)
            },
            user_lookup(old(self).state@.users, username@) is None ==> {
                &&& r.idx() == old(self).state@.objects.len()
                &&& final(self).state@.objects == old(self).state@.objects.push(
                    Object { id: r, parent_id: old(self).state@.entrance },
                )
                &&& final(self).state@.users == old(self).state@.users.push((username@, r))
                &&& final(self).state@.entrance == old(self).state@.entrance
                &&& final(self).has_actor(r)
                &&& final(self).frozen == old(self).frozen
            },
            user_lookup(final(self).state@.users, username@) == Some(r),
    {
        let ghost pre = *self;
        let uname: String = username.to_owned();
        let n = self.state.users.len();
        let ghost users = self.state@.users;
        let mut i: usize = 0;
        while i < n
            invariant
                *self == pre,
                pre.wf(),
                n == self.state@.users.len(),
                users == self.state@.users,
                uname@ == username@,
                i <= n,
                user_lookup(users, username@) == user_lookup_at(users, username@, i as int),
            decreases n - i,
        {
            assert(users[i as int] == (self.state.users@[i as int].name@,
                self.state.users@[i as int].id));
            if self.state.users[i].name == uname {
                let r = self.state.users[i].id;
                proof {
                    lemma_user_lookup_found(users, username@, i as int);
                }
                return r;
            }
            i = i + 1;
        }
        assert(user_lookup(users, username@) is None);
        proof {
            lemma_user_lookup_none_no_match(users, username@, 0);
        }
        let entrance = self.entrance();
        let id = self.create_in(Some(entrance));
        let ghost mid = *self;
        self.state.users.push(UserEntry { name: uname, id });
        proof {
            assert(self.state@.users =~= users.push((username@, id)));
            lemma_user_lookup_push(users, username@, id);
            assert(state_wf(mid.state@));
            assert forall|k: int, l: int|
                0 <= k < self.state@.users.len() && 0 <= l < self.state@.users.len() && k != l
                implies (#[trigger] self.state@.users[k]).0 != (#[trigger] self.state@.users[l]).0
                    && self.state@.users[k].1 != self.state@.users[l].1
            by {
                assert(forall|m: int| 0 <= m < users.len()
                    ==> (#[trigger] users[m]).1.idx() < pre.state@.objects.len());
            }
        }
        id
    }

    /// Reverse lookup over the user registry. An id that is not bound to a
    /// user falls back to its textual form; that is an expected absence,
    /// not an error.
    pub fn username(&self, id: Id) -> (r: String)
        requires
            self.wf(),
        ensures
            user_name_of(self.state@.users, id) matches Some(n) ==> r@ == n,
            user_name_of(self.state@.users, id) is None ==> r@ == id.text_view(),
    {
        let n = self.state.users.len();
        let ghost users = self.state@.users;
        let mut i: usize = 0;
        while i < n
            invariant
                n == self.state@.users.len(),
                users == self.state@.users,
                i <= n,
                user_name_of(users, id) == user_name_at(users, id, i as int),
            decreases n - i,
        {
            assert(users[i as int] == (self.state.users@[i as int].name@,
                self.state.users@[i as int].id));
            if self.state.users[i].id == id {
                return self.state.users[i].name.clone();
            }
            i = i + 1;
        }
        id.text()
    }

    /// The type/category tag associated with an object. The full taxonomy
    /// is an external collaborator's concern; the directory itself only
    /// tells objects bound to a user apart from plain objects.
    pub fn kind(&self, id: Id) -> (r: String)
        requires
            self.wf(),
        ensures
            user_name_of(self.state@.users, id) is Some ==> r@ == "user"@,
            user_name_of(self.state@.users, id) is None ==> r@ == "object"@,
    {
        let n = self.state.users.len();
        let ghost users = self.state@.users;
        let mut i: usize = 0;
        while i < n
            invariant
                n == self.state@.users.len(),
                users == self.state@.users,
                i <= n,
                user_name_of(users, id) == user_name_at(users, id, i as int),
            decreases n - i,
        {
            assert(users[i as int] == (self.state.users@[i as int].name@,
                self.state.users@[i as int].id));
            if self.state.users[i].id == id {
                return String::from_str("user");
            }
            i = i + 1;
        }
        String::from_str("object")
    }

    /// Routes a directed message into the target actor's FIFO mailbox.
    /// Sending while the world is frozen, or to an id with no live actor,
    /// is a fatal contract violation that no caller may commit: the
    /// frozen flag is what admits traffic, and once it is set no mailbox
    /// may grow, so both inputs are excluded outright rather than queued,
    /// deferred, or reported as success. A caller outside the library
    /// looks at the flag and the target's liveness first, and stops
    /// loudly on a violation.
    pub fn send_message(&mut self, id: Id, message: ObjectMessage)
        requires
            old(self).wf(),
            !old(self).frozen,
            old(self).has_actor(id),
        ensures
            final(self).wf(),
            final(self).has_actor(id),
            final(self).actor_at(id).mailbox@ == old(self).actor_at(id).mailbox@.push(
                MailboxEntry::Directed(message),
            ),
            final(self).actor_at(id).id == old(self).actor_at(id).id,
            final(self).actor_at(id).state == old(self).actor_at(id).state,
            old(self).actors_unchanged_except(*final(self), id),
            final(self).state == old(self).state,
            !final(self).frozen,
            final(self).chat_connections == old(self).chat_connections,
    {
        let slot = self.actors.remove(id.0);
        match slot {
            None => vstd::pervasive::unreached(),
            Some(mut actor) => {
                actor.mailbox.push(MailboxEntry::Directed(message));
                self.actors.insert(id.0, Some(actor));
                proof {
                    assert(forall|i: int| 0 <= i < old(self).actors@.len() && i != id.idx()
                        ==> self.actors@[i] == (#[trigger] old(self).actors@[i]));
                }
            },
        }
    }

    /// Fans a client-visible message out to every connection currently
    /// attached to `id`: one delivery per connection, in attach order, each
    /// carrying the message. The deliveries are handed back for the
    /// transport adapter to put on the wire. An object with no attached
    /// connection yields no deliveries: the message is dropped, which is an
    /// observability note, not an error.
    pub fn send_client_message(&self, id: Id, message: &str) -> (r: Vec<(u64, String)>)
        ensures
            reg_view(self.chat_connections).contains_key(id.idx() as usize) ==> {
                &&& r@.len() == reg_view(self.chat_connections)[id.idx() as usize].len()
                &&& forall|k: int| 0 <= k < r@.len()
                        ==> (#[trigger] r@[k]).0
                            == reg_view(self.chat_connections)[id.idx() as usize][k]
                            && r@[k].1@ == message@
            },
            !reg_view(self.chat_connections).contains_key(id.idx() as usize) ==> r@.len() == 0,
    {
        let conns = match reg_get(&self.chat_connections, id.0) {
            Some(v) => v,
            None => Vec::new(),
        };
        let mut r: Vec<(u64, String)> = Vec::new();
        let n = conns.len();
        let mut i: usize = 0;
        while i < n
            invariant
                n == conns@.len(),
                i <= n,
                r@.len() == i,
                forall|k: int| 0 <= k < i
                    ==> (#[trigger] r@[k]).0 == conns@[k] && r@[k].1@ == message@,
            decreases n - i,
        {
            r.push((conns[i], message.to_owned()));
            i = i + 1;
        }
        r
    }

    /// Attaches a connection to an object's notification list.
    pub fn register_chat_connect(&mut self, id: Id, connection: u64)
        requires
            old(self).wf(),
        ensures
            final(self).wf(),
            reg_view(old(self).chat_connections).contains_key(id.idx() as usize)
                ==> reg_view(final(self).chat_connections)
                    == reg_view(old(self).chat_connections).insert(
                        id.idx() as usize,
                        reg_view(old(self).chat_connections)[id.idx() as usize].push(connection),
                    ),
            !reg_view(old(self).chat_connections).contains_key(id.idx() as usize)
                ==> reg_view(final(self).chat_connections)
                    == reg_view(old(self).chat_connections).insert(id.idx() as usize, seq![connection]),
            final(self).state == old(self).state,
            final(self).actors == old(self).actors,
            final(self).frozen == old(self).frozen,
    {
        reg_insert(&mut self.chat_connections, id.0, connection);
    }

    /// Detaches one occurrence of a connection from an object's
    /// notification list; a no-op if the connection was never attached. A
    /// list emptied by the removal is unbound entirely.
    pub fn remove_chat_connection(&mut self, id: Id, connection: u64)
        requires
            old(self).wf(),
        ensures
            final(self).wf(),
            reg_view(old(self).chat_connections).contains_key(id.idx() as usize) ==> {
                let remaining = remove_first(
                    reg_view(old(self).chat_connections)[id.idx() as usize],
                    connection,
                );
                if remaining.len() == 0 {
                    reg_view(final(self).chat_connections)
                        == reg_view(old(self).chat_connections).remove(id.idx() as usize)
                } else {
                    reg_view(final(self).chat_connections)
                        == reg_view(old(self).chat_connections).insert(id.idx() as usize, remaining)
                }
            },
            !reg_view(old(self).chat_connections).contains_key(id.idx() as usize)
                ==> reg_view(final(self).chat_connections) == reg_view(old(self).chat_connections),
            final(self).state == old(self).state,
            final(self).actors == old(self).actors,
            final(self).frozen == old(self).frozen,
    {
        let existing = reg_get(&self.chat_connections, id.0);
        match existing {
            None => {},
            Some(v) => {
                let filtered = remove_first_exec(&v, connection);
                let _ = reg_remove(&mut self.chat_connections, id.0);
                if filtered.len() > 0 {
                    let ghost pre = reg_view(self.chat_connections);
                    let ghost snap = *self;
                    let mut i: usize = 0;
                    let n = filtered.len();
                    while i < n
                        invariant
                            n == filtered@.len(),
                            0 < n,
                            i <= n,
                            self.state == snap.state,
                            self.actors == snap.actors,
                            self.frozen == snap.frozen,
                            i > 0 ==> reg_view(self.chat_connections)
                                == pre.insert(id.idx() as usize, filtered@.take(i as int)),
                            i == 0 ==> reg_view(self.chat_connections) == pre,
                            !pre.contains_key(id.idx() as usize),
                        decreases n - i,
                    {
                        reg_insert(&mut self.chat_connections, id.0, filtered[i]);
                        proof {
                            if i == 0 {
                                assert(filtered@.take(1int) =~= seq![filtered@[0]]);
                            } else {
                                assert(filtered@.take(i as int).push(filtered@[i as int])
                                    =~= filtered@.take(i + 1));
                            }
                        }
                        i = i + 1;
                    }
                    proof {
                        assert(filtered@.take(n as int) =~= filtered@);
                    }
                }
            },
        }
    }
}

/// The per-actor states reported at a freeze, keyed by id, in ascending-id
/// order over the live actors.
pub open spec fn collect_states(actors: Seq<Option<ObjectActor>>) -> Seq<(Id, Seq<char>)>
    decreases actors.len(),
{
    if actors.len() == 0 {
        Seq::<(Id, Seq<char>)>::empty()
    } else {
        collect_states(actors.drop_last()) + (match actors.last() {
            Some(a) => seq![(a.id, a.state.data@)],
            None => Seq::<(Id, Seq<char>)>::empty(),
        })
    }
}

/// The durable state recorded for `id` in a save image, scanning from `i`.
pub open spec fn state_lookup_at(states: Seq<(Id, Seq<char>)>, id: Id, i: int) -> Option<Seq<char>>
    decreases states.len() - i,
{
    if i < 0 || i >= states.len() {
        None
    } else if states[i].0 == id {
        Some(states[i].1)
    } else {
        state_lookup_at(states, id, i + 1)
    }
}

/// The durable state recorded for `id` in a save image, if any.
pub open spec fn state_lookup(states: Seq<(Id, Seq<char>)>, id: Id) -> Option<Seq<char>> {
    state_lookup_at(states, id, 0)
}

/// The error of a restore from a save image that cannot be used.
#[derive(Debug, PartialEq, Eq, Structural, Clone, Copy)]
pub enum LoadError {
    /// The image does not describe a well-formed world.
    Malformed,
}

/// The durable state an object starts with after a restore: what the image
/// records for it, or empty when the image carries no entry for it.
pub open spec fn restored_data(states: Seq<(Id, Seq<char>)>, id: Id) -> Seq<char> {
    match state_lookup(states, id) {
        Some(d) => d,
        None => Seq::<char>::empty(),
    }
}

/// Decides well-formedness of parsed persistable facts.
#[verifier::loop_isolation(false)]
fn check_state_wf(ws: &WorldState) -> (r: bool)
    ensures
        r == state_wf(ws@),
{
    let n = ws.objects.len();
    let mut i: usize = 0;
    while i < n
        invariant
            n == ws.objects@.len(),
            i <= n,
            forall|k: int| 0 <= k < i ==> (#[trigger] ws.objects@[k]).id.idx() == k,
            forall|k: int| 0 <= k < i
                ==> ((#[trigger] ws.objects@[k]).parent_id matches Some(p) ==> p.idx() < k),
        decreases n - i,
    {
        let o = ws.objects[i];
        if o.id.0 != i {
            proof {
                assert(ws@.objects[i as int].id.idx() != i as int);
            }
            return false;
        }
        match o.parent_id {
            Some(p) => {
                if p.0 >= i {
                    proof {
                        assert((ws@.objects[i as int].parent_id matches Some(q) && q.idx() >= i));
                    }
                    return false;
                }
            },
            None => {},
        }
        i = i + 1;
    }
    match ws.entrance_id {
        Some(e) => {
            if e.0 >= n {
                return false;
            }
        },
        None => {},
    }
    let m = ws.users.len();
    let ghost users = ws@.users;
    let mut j: usize = 0;
    while j < m
        invariant
            m == ws.users@.len(),
            users == ws@.users,
            j <= m,
            forall|k: int| 0 <= k < j ==> (#[trigger] users[k]).1.idx() < ws.objects@.len(),
        decreases m - j,
    {
        assert(users[j as int] == (ws.users@[j as int].name@, ws.users@[j as int].id));
        if ws.users[j].id.0 >= n {
            proof {
                assert(ws@.users[j as int].1.idx() >= ws@.objects.len());
            }
            return false;
        }
        j = j + 1;
    }
    let mut a: usize = 1;
    while a < m
        invariant
            m == ws.users@.len(),
            users == ws@.users,
            a <= m || m == 0,
            forall|k: int, l: int| 0 <= k < l < a && l < m
                ==> (#[trigger] users[k]).0 != (#[trigger] users[l]).0
                    && users[k].1 != users[l].1,
        decreases m - a,
    {
        let mut b: usize = 0;
        while b < a
            invariant
                m == ws.users@.len(),
                users == ws@.users,
                a < m,
                b <= a,
                forall|l: int| 0 <= l < b
                    ==> (#[trigger] users[l]).0 != users[a as int].0
                        && users[l].1 != users[a as int].1,
            decreases a - b,
        {
            assert(users[b as int] == (ws.users@[b as int].name@, ws.users@[b as int].id));
            assert(users[a as int] == (ws.users@[a as int].name@, ws.users@[a as int].id));
            if ws.users[b].name == ws.users[a].name || ws.users[b].id == ws.users[a].id {
                proof {
                    assert(ws@.users[b as int].0 == ws@.users[a as int].0
                        || ws@.users[b as int].1 == ws@.users[a as int].1);
                }
                return false;
            }
            b = b + 1;
        }
        a = a + 1;
    }
    proof {
        assert forall|k: int, l: int|
            0 <= k < users.len() && 0 <= l < users.len() && k != l
            implies (#[trigger] users[k]).0 != (#[trigger] users[l]).0
                && users[k].1 != users[l].1
        by {
            if k > l {
                assert(users[l].0 != users[k].0 && users[l].1 != users[k].1);
            }
        }
    }
    true
}

/// The durable state a save image records for `id`, if any.
fn find_state(states: &Vec<FreezeResponse>, id: Id) -> (r: Option<ObjectActorState>)
    ensures
        state_lookup(states@.map_values(|f: FreezeResponse| (f.id, f.state.data@)), id)
            matches Some(d) ==> (r matches Some(st) && st.data@ == d),
        state_lookup(states@.map_values(|f: FreezeResponse| (f.id, f.state.data@)), id) is None
            ==> r is None,
{
    let ghost view = states@.map_values(|f: FreezeResponse| (f.id, f.state.data@));
    let n = states.len();
    let mut i: usize = 0;
    while i < n
        invariant
            n == states@.len(),
            view == states@.map_values(|f: FreezeResponse| (f.id, f.state.data@)),
            i <= n,
            state_lookup(view, id) == state_lookup_at(view, id, i as int),
        decreases n - i,
    {
        assert(view[i as int] == (states@[i as int].id, states@[i as int].state.data@));
        if states[i].id == id {
            return Some(ObjectActorState { data: states[i].state.data.clone() });
        }
        i = i + 1;
    }
    None
}

/// The full durable representation of the system at a quiescent instant:
/// the world's persistable facts plus every actor's serialized state.
pub struct SaveState {
    pub world_state: WorldState,
    pub actor_state: Vec<FreezeResponse>,
}

/// Mathematical model of a `SaveState`.
pub ghost struct SaveStateV {
    pub world: WorldStateV,
    pub states: Seq<(Id, Seq<char>)>,
}

impl View for SaveState {
    type V = SaveStateV;

    open spec fn view(&self) -> SaveStateV {
        SaveStateV {
            world: self.world_state@,
            states: self.actor_state@.map_values(|f: FreezeResponse| (f.id, f.state.data@)),
        }
    }
}

impl World {
    /// Every directed message admitted before the cutover has been
    /// processed: each live mailbox holds nothing but the freeze request.
    pub open spec fn drained_for_freeze(self) -> bool {
        forall|i: int| 0 <= i < self.actors@.len()
            ==> ((#[trigger] self.actors@[i]) matches Some(a)
                ==> a.mailbox@.len() == 1 && a.mailbox@[0] is Freeze)
    }

    /// No live actor remains registered.
    pub open spec fn no_live_actors(self) -> bool {
        forall|i: int| 0 <= i < self.actors@.len() ==> (#[trigger] self.actors@[i]) is None
    }

    /// The freeze cutover: sets the frozen flag, so that every further send
    /// is refused, and broadcasts the freeze request to every live actor.
    /// FIFO mailboxes then guarantee that each actor finishes every message
    /// already queued before it answers.
    #[verifier::loop_isolation(false)]
    pub fn begin_freeze(&mut self)
        requires
            old(self).wf(),
            !old(self).frozen,
        ensures
            final(self).wf(),
            final(self).frozen,
            final(self).state == old(self).state,
            final(self).chat_connections == old(self).chat_connections,
            final(self).actors@.len() == old(self).actors@.len(),
            forall|i: int| 0 <= i < old(self).actors@.len()
                ==> ((#[trigger] old(self).actors@[i]) is None ==> final(self).actors@[i] is None),
            forall|i: int| 0 <= i < old(self).actors@.len()
                ==> ((#[trigger] old(self).actors@[i]) matches Some(a)
                    ==> (final(self).actors@[i] matches Some(b)
                        && b.id == a.id
                        && b.state == a.state
                        && b.mailbox@ == a.mailbox@.push(
                            MailboxEntry::Freeze(FreezeMessage {}),
                        ))),
    {
        let ghost snap = *self;
        self.frozen = true;
        let n = self.actors.len();
        let mut i: usize = 0;
        while i < n
            invariant
                n == self.actors@.len(),
                i <= n,
                !snap.frozen,
                snap.wf(),
                snap == *old(self),
                self.state == snap.state,
                self.chat_connections == snap.chat_connections,
                self.frozen,
                self.actors@.len() == n,
                forall|j: int| i <= j < n
                    ==> self.actors@[j] == (#[trigger] snap.actors@[j]),
                forall|j: int| 0 <= j < i
                    ==> ((#[trigger] snap.actors@[j]) is None ==> self.actors@[j] is None),
                forall|j: int| 0 <= j < i
                    ==> ((#[trigger] snap.actors@[j]) matches Some(a)
                        ==> (self.actors@[j] matches Some(b)
                            && b.id == a.id
                            && b.state == a.state
                            && b.mailbox@ == a.mailbox@.push(
                                MailboxEntry::Freeze(FreezeMessage {}),
                            ))),
            decreases n - i,
        {
            let ghost pre = self.actors@;
            let slot = self.actors.remove(i);
            match slot {
                None => {
                    self.actors.insert(i, None);
                    proof {
                        assert(self.actors@ =~= pre);
                    }
                },
                Some(mut actor) => {
                    proof {
                        assert(snap.actors@[i as int] matches Some(a) && a.no_freeze_pending()
                            && actor == a);
                    }
                    actor.mailbox.push(MailboxEntry::Freeze(FreezeMessage {}));
                    let ghost updated = actor;
                    self.actors.insert(i, Some(actor));
                    proof {
                        assert(self.actors@ =~= pre.update(i as int, Some(updated)));
                    }
                },
            }
            i = i + 1;
        }
        proof {
            assert forall|i: int| 0 <= i < self.actors@.len()
                implies ((#[trigger] self.actors@[i]) matches Some(a)
                    ==> a.wf() && a.id.idx() == i)
            by {
                if self.actors@[i] is Some {
                    let b = self.actors@[i]->Some_0;
                    assert(snap.actors@[i] matches Some(a) && a.no_freeze_pending()
                        && b.mailbox@ == a.mailbox@.push(MailboxEntry::Freeze(FreezeMessage {})));
                }
            }
        }
    }

    /// The lowest id whose live actor has a directed message at the front
    /// of its mailbox, if any: the deterministic choice of what to process
    /// next.
    pub fn next_pending(&self) -> (r: Option<Id>)
        requires
            self.wf(),
        ensures
            r matches Some(id) ==> {
                &&& self.has_actor(id)
                &&& self.actor_at(id).mailbox@.len() > 0
                &&& self.actor_at(id).mailbox@[0] is Directed
                &&& forall|j: int| 0 <= j < id.idx()
                        ==> !((#[trigger] self.actors@[j]) matches Some(a)
                            && a.mailbox@.len() > 0 && a.mailbox@[0] is Directed)
            },
            r is None ==> forall|j: int| 0 <= j < self.actors@.len()
                ==> !((#[trigger] self.actors@[j]) matches Some(a)
                    && a.mailbox@.len() > 0 && a.mailbox@[0] is Directed),
    {
        let n = self.actors.len();
        let mut i: usize = 0;
        while i < n
            invariant
                n == self.actors@.len(),
                i <= n,
                forall|j: int| 0 <= j < i
                    ==> !((#[trigger] self.actors@[j]) matches Some(a)
                        && a.mailbox@.len() > 0 && a.mailbox@[0] is Directed),
            decreases n - i,
        {
            match &self.actors[i] {
                None => {},
                Some(a) => {
                    if a.mailbox.len() > 0 {
                        let front_directed = match &a.mailbox[0] {
                            MailboxEntry::Directed(_) => true,
                            MailboxEntry::Freeze(_) => false,
                        };
                        if front_directed {
                            return Some(Id(i));
                        }
                    }
                },
            }
            i = i + 1;
        }
        None
    }

    /// Dequeues the directed message at the front of an actor's mailbox for
    /// processing; FIFO arrival order is preserved.
    pub fn take_message(&mut self, id: Id) -> (m: ObjectMessage)
        requires
            old(self).wf(),
            old(self).has_actor(id),
            old(self).actor_at(id).mailbox@.len() > 0,
            old(self).actor_at(id).mailbox@[0] is Directed,
        ensures
            final(self).wf(),
            old(self).actor_at(id).mailbox@[0] == MailboxEntry::Directed(m),
            final(self).has_actor(id),
            final(self).actor_at(id).id == old(self).actor_at(id).id,
            final(self).actor_at(id).state == old(self).actor_at(id).state,
            final(self).actor_at(id).mailbox@ == old(self).actor_at(id).mailbox@.drop_first(),
            old(self).actors_unchanged_except(*final(self), id),
            final(self).state == old(self).state,
            final(self).frozen == old(self).frozen,
            final(self).chat_connections == old(self).chat_connections,
    {
        let ghost pre = self.actors@;
        let slot = self.actors.remove(id.0);
        match slot {
            None => vstd::pervasive::unreached(),
            Some(mut actor) => {
                let entry = actor.mailbox.remove(0);
                proof {
                    assert(actor.mailbox@ =~= old(self).actor_at(id).mailbox@.drop_first());
                }
                let ghost updated = actor;
                self.actors.insert(id.0, Some(actor));
                proof {
                    assert(self.actors@ =~= pre.update(id.idx() as int, Some(updated)));
                }
                match entry {
                    MailboxEntry::Directed(m) => m,
                    MailboxEntry::Freeze(_) => vstd::pervasive::unreached(),
                }
            },
        }
    }

    /// Commits what one scripted-behavior invocation produced. A faulting
    /// handler must not leave partially-applied durable state visible: on a
    /// fault the whole directory is exactly as it was, the actor stays
    /// live, and its remaining mailbox is untouched, so the next message is
    /// processed as if the fault had never happened.
    pub fn apply_outcome(&mut self, id: Id, outcome: HandlerOutcome)
        requires
            old(self).wf(),
            old(self).has_actor(id),
        ensures
            final(self).wf(),
            outcome is Fault ==> *final(self) == *old(self),
            outcome matches HandlerOutcome::Success(st) ==> {
                &&& final(self).has_actor(id)
                &&& final(self).actor_at(id).state == st
                &&& final(self).actor_at(id).id == old(self).actor_at(id).id
                &&& final(self).actor_at(id).mailbox == old(self).actor_at(id).mailbox
                &&& old(self).actors_unchanged_except(*final(self), id)
                &&& final(self).state == old(self).state
                &&& final(self).frozen == old(self).frozen
                &&& final(self).chat_connections == old(self).chat_connections
            },
    {
        match outcome {
            HandlerOutcome::Fault => {},
            HandlerOutcome::Success(st) => {
                let ghost pre = self.actors@;
                let slot = self.actors.remove(id.0);
                match slot {
                    None => vstd::pervasive::unreached(),
                    Some(mut actor) => {
                        actor.state = st;
                        let ghost updated = actor;
                        self.actors.insert(id.0, Some(actor));
                        proof {
                            assert(self.actors@ =~= pre.update(id.idx() as int, Some(updated)));
                        }
                    },
                }
            },
        }
    }

    /// An actor answers the freeze request: it reports its id and durable
    /// state and terminates; the directory discards its address. By FIFO
    /// discipline the freeze request stands at the front only when every
    /// earlier message has been processed.
    pub fn freeze_respond(&mut self, id: Id) -> (resp: FreezeResponse)
        requires
            old(self).wf(),
            old(self).frozen,
            old(self).has_actor(id),
            old(self).actor_at(id).mailbox@.len() > 0,
            old(self).actor_at(id).mailbox@[0] is Freeze,
        ensures
            final(self).wf(),
            resp.id == id,
            resp.state == old(self).actor_at(id).state,
            final(self).actors@ == old(self).actors@.update(id.idx() as int, None::<ObjectActor>),
            final(self).state == old(self).state,
            final(self).frozen == old(self).frozen,
            final(self).chat_connections == old(self).chat_connections,
    {
        let slot = self.actors.remove(id.0);
        match slot {
            None => vstd::pervasive::unreached(),
            Some(actor) => {
                self.actors.insert(id.0, None);
                proof {
                    assert(self.actors@ =~= old(self).actors@.update(id.idx() as int,
                        None::<ObjectActor>));
                }
                FreezeResponse { id: actor.id, state: actor.state }
            },
        }
    }

    /// Whether every live mailbox has been drained down to the freeze
    /// request, so that the snapshot may be taken.
    pub fn drained(&self) -> (r: bool)
        requires
            self.wf(),
        ensures
            r == self.drained_for_freeze(),
    {
        let n = self.actors.len();
        let mut i: usize = 0;
        while i < n
            invariant
                n == self.actors@.len(),
                i <= n,
                forall|j: int| 0 <= j < i
                    ==> ((#[trigger] self.actors@[j]) matches Some(a)
                        ==> a.mailbox@.len() == 1 && a.mailbox@[0] is Freeze),
            decreases n - i,
        {
            match &self.actors[i] {
                None => {},
                Some(a) => {
                    if a.mailbox.len() != 1 {
                        return false;
                    }
                    match &a.mailbox[0] {
                        MailboxEntry::Directed(_) => {
                            return false;
                        },
                        MailboxEntry::Freeze(_) => {},
                    }
                },
            }
            i = i + 1;
        }
        true
    }

    /// Collects every remaining actor's freeze response, clears the actor
    /// registry, and assembles the save image from a copy of the world
    /// state plus the reported per-actor states, keyed by id.
    #[verifier::loop_isolation(false)]
    pub fn freeze(&mut self) -> (image: SaveState)
        requires
            old(self).wf(),
            old(self).frozen,
            old(self).drained_for_freeze(),
        ensures
            final(self).wf(),
            final(self).frozen,
            final(self).no_live_actors(),
            final(self).state == old(self).state,
            final(self).chat_connections == old(self).chat_connections,
            image@.world == old(self).state@,
            image@.states == collect_states(old(self).actors@),
    {
        let mut responses: Vec<FreezeResponse> = Vec::new();
        let n = self.actors.len();
        let ghost snap = *self;
        let mut i: usize = 0;
        while i < n
            invariant
                n == self.actors@.len(),
                i <= n,
                snap.wf(),
                snap.frozen,
                snap.drained_for_freeze(),
                *old(self) == snap,
                self.state == snap.state,
                self.chat_connections == snap.chat_connections,
                self.frozen == snap.frozen,
                self.actors@.len() == n,
                forall|j: int| i <= j < n
                    ==> self.actors@[j] == (#[trigger] snap.actors@[j]),
                forall|j: int| 0 <= j < i ==> (#[trigger] self.actors@[j]) is None,
                responses@.map_values(|f: FreezeResponse| (f.id, f.state.data@))
                    == collect_states(snap.actors@.take(i as int)),
            decreases n - i,
        {
            proof {
                assert(snap.actors@.take(i + 1).drop_last() =~= snap.actors@.take(i as int));
                assert(snap.actors@.take(i + 1).last() == snap.actors@[i as int]);
            }
            let ghost pre = self.actors@;
            let ghost prev_resp = responses@;
            let slot = self.actors.remove(i);
            match slot {
                None => {
                    self.actors.insert(i, None);
                    proof {
                        assert(self.actors@ =~= pre.update(i as int, None::<ObjectActor>));
                        assert(responses@.map_values(|f: FreezeResponse| (f.id, f.state.data@))
                            =~= collect_states(snap.actors@.take(i + 1)));
                    }
                },
                Some(actor) => {
                    self.actors.insert(i, None);
                    responses.push(FreezeResponse { id: actor.id, state: actor.state });
                    proof {
                        assert(self.actors@ =~= pre.update(i as int, None::<ObjectActor>));
                        assert(actor == snap.actors@[i as int]->Some_0);
                        assert(responses@.map_values(|f: FreezeResponse| (f.id, f.state.data@))
                            =~= prev_resp.map_values(|f: FreezeResponse| (f.id, f.state.data@))
                                .push((actor.id, actor.state.data@)));
                        assert(responses@.map_values(|f: FreezeResponse| (f.id, f.state.data@))
                            =~= collect_states(snap.actors@.take(i + 1)));
                    }
                },
            }
            i = i + 1;
        }
        proof {
            assert(snap.actors@.take(n as int) =~= snap.actors@);
        }
        let world_state = self.state.snapshot();
        SaveState { world_state, actor_state: responses }
    }

    /// Restores a parsed save image wholesale: validates it, replaces the
    /// world state, spawns a fresh actor for every object — seeded with its
    /// persisted durable state if the image carries one, empty otherwise —
    /// and clears the frozen flag, re-admitting message traffic. A
    /// malformed image is refused and leaves the directory untouched; that
    /// condition is distinct from "no image available", which the caller
    /// answers with the empty bootstrap instead.
    pub fn unfreeze_read(&mut self, image: SaveState) -> (r: Result<(), LoadError>)
        requires
            old(self).wf(),
            old(self).frozen,
            old(self).no_live_actors(),
        ensures
            final(self).wf(),
            !state_wf(image@.world) ==> r == Err::<(), LoadError>(LoadError::Malformed)
                && *final(self) == *old(self),
            state_wf(image@.world) ==> {
                &&& r is Ok
                &&& !final(self).frozen
                &&& final(self).state@ == image@.world
                &&& final(self).actors@.len() == image@.world.objects.len()
                &&& forall|i: int| 0 <= i < final(self).actors@.len()
                        ==> ((#[trigger] final(self).actors@[i]) matches Some(a)
                            && a.id.idx() == i
                            && a.mailbox@.len() == 0
                            && a.state.data@ == restored_data(image@.states, Id(i as usize)))
                &&& final(self).chat_connections == old(self).chat_connections
            },
    {
        let ghost img = image@;
        if !check_state_wf(&image.world_state) {
            return Err(LoadError::Malformed);
        }
        let SaveState { world_state, actor_state } = image;
        self.state = world_state;
        self.actors = Vec::new();
        let n = self.state.objects.len();
        let mut i: usize = 0;
        while i < n
            invariant
                i <= n,
                n == self.state@.objects.len(),
                self.state@ == img.world,
                state_wf(self.state@),
                self.frozen,
                self.actors@.len() == i,
                self.chat_connections == old(self).chat_connections,
                actor_state@.map_values(|f: FreezeResponse| (f.id, f.state.data@)) == img.states,
                forall|k: int| 0 <= k < i
                    ==> ((#[trigger] self.actors@[k]) matches Some(a)
                        && a.id.idx() == k
                        && a.mailbox@.len() == 0
                        && a.state.data@ == restored_data(img.states, Id(k as usize))),
            decreases n - i,
        {
            let seeded = match find_state(&actor_state, Id(i)) {
                Some(st) => st,
                None => ObjectActorState::empty(),
            };
            self.actors.push(Some(ObjectActor::spawn(Id(i), seeded)));
            i = i + 1;
        }
        self.frozen = false;
        Ok(())
    }

    /// The fresh-bootstrap unfreeze: only valid for a world with no objects
    /// at all; clears the frozen flag without an image.
    pub fn unfreeze_empty(&mut self)
        requires
            old(self).wf(),
            old(self).frozen,
            old(self).state@.objects.len() == 0,
        ensures
            final(self).wf(),
            !final(self).frozen,
            final(self).state == old(self).state,
            final(self).actors == old(self).actors,
            final(self).chat_connections == old(self).chat_connections,
    {
        self.frozen = false;
    }
}

/// One scan step of the user-lookup loop: a match at `i` settles the scan.
proof fn lemma_user_lookup_found(users: Seq<(Seq<char>, Id)>, name: Seq<char>, i: int)
    requires
        0 <= i < users.len(),
        users[i].0 == name,
    ensures
        user_lookup_at(users, name, i) == Some(users[i].1),
{
}

/// Appending a fresh name to the registry makes it found by lookup,
/// provided the name was absent before.
proof fn lemma_user_lookup_push(users: Seq<(Seq<char>, Id)>, name: Seq<char>, id: Id)
    requires
        user_lookup(users, name) is None,
    ensures
        user_lookup(users.push((name, id)), name) == Some(id),
{
    lemma_user_lookup_push_at(users, name, id, 0);
}

/// A scan that finds nothing means no entry from its start position
/// carries the name.
proof fn lemma_user_lookup_none_no_match(users: Seq<(Seq<char>, Id)>, name: Seq<char>, i: int)
    requires
        0 <= i <= users.len(),
        user_lookup_at(users, name, i) is None,
    ensures
        forall|j: int| i <= j < users.len() ==> (#[trigger] users[j]).0 != name,
    decreases users.len() - i,
{
    if i < users.len() {
        lemma_user_lookup_none_no_match(users, name, i + 1);
    }
}

proof fn lemma_user_lookup_push_at(users: Seq<(Seq<char>, Id)>, name: Seq<char>, id: Id, i: int)
    requires
        0 <= i <= users.len(),
        user_lookup_at(users, name, i) is None,
    ensures
        user_lookup_at(users.push((name, id)), name, i) == Some(id),
    decreases users.len() - i,
{
    if i < users.len() {
        lemma_user_lookup_push_at(users, name, id, i + 1);
    }
}

/// Id stability: creating an object appends one record to the object
/// sequence and disturbs no existing record, so the parent link supplied
/// at creation holds permanently, for every object, across all later
/// creations.
pub proof fn law_id_stability(pre: Seq<Object>, obj: Object)
    ensures
        forall|i: int| 0 <= i < pre.len()
            ==> (#[trigger] pre.push(obj)[i]).parent_id == pre[i].parent_id,
        pre.push(obj)[pre.len() as int].parent_id == obj.parent_id,
{
}

/// User idempotence: binding a name that the registry did not carry makes
/// every later lookup return exactly the bound id. A repeated
/// `get_or_create_user` for the name therefore takes the lookup branch of
/// its contract: it returns the same id, changes nothing, and creates no
/// second object.
pub proof fn law_user_idempotence(users: Seq<(Seq<char>, Id)>, name: Seq<char>, id: Id)
    requires
        user_lookup(users, name) is None,
    ensures
        user_lookup(users.push((name, id)), name) == Some(id),
{
    lemma_user_lookup_push(users, name, id);
}

/// Freeze drains deterministically: the freeze request is enqueued after
/// the cutover, so FIFO order puts it behind every directed message that
/// was admitted before, and after the cutover no mailbox grows. An actor
/// can answer the freeze request — which requires it at the mailbox front —
/// only once the mailbox holds nothing else: every message enqueued before
/// the cutover has been fully processed first.
pub proof fn law_freeze_response_is_last(a: ObjectActor)
    requires
        a.wf(),
        a.mailbox@.len() > 0,
        a.mailbox@[0] is Freeze,
    ensures
        a.mailbox@.len() == 1,
{
    if a.mailbox@.len() > 1 {
        assert(a.mailbox@[0] is Directed);
    }
}

/// Directed messages still queued in one mailbox.
pub open spec fn count_directed(mb: Seq<MailboxEntry>) -> nat
    decreases mb.len(),
{
    if mb.len() == 0 {
        0
    } else {
        count_directed(mb.drop_first()) + (if mb[0] is Directed { 1nat } else { 0nat })
    }
}

/// Directed messages still queued in one actor slot.
pub open spec fn slot_pending(slot: Option<ObjectActor>) -> nat {
    match slot {
        Some(a) => count_directed(a.mailbox@),
        None => 0,
    }
}

/// Directed messages still queued across the whole actor registry.
pub open spec fn total_pending(actors: Seq<Option<ObjectActor>>) -> nat
    decreases actors.len(),
{
    if actors.len() == 0 {
        0
    } else {
        total_pending(actors.drop_last()) + slot_pending(actors.last())
    }
}

/// Replacing one slot changes the registry's pending count by exactly the
/// difference the slot contributes.
proof fn lemma_total_pending_update(actors: Seq<Option<ObjectActor>>, i: int, v: Option<ObjectActor>)
    requires
        0 <= i < actors.len(),
    ensures
        total_pending(actors.update(i, v)) + slot_pending(actors[i])
            == total_pending(actors) + slot_pending(v),
    decreases actors.len(),
{
    let n = actors.len() - 1;
    if i == n {
        assert(actors.update(i, v).drop_last() =~= actors.drop_last());
    } else {
        assert(actors.update(i, v).drop_last() =~= actors.drop_last().update(i, v));
        lemma_total_pending_update(actors.drop_last(), i, v);
    }
}

/// Enqueueing the freeze request changes no mailbox's pending count: the
/// cutover broadcast adds no directed traffic.
pub proof fn law_cutover_adds_no_traffic(mb: Seq<MailboxEntry>)
    ensures
        count_directed(mb.push(MailboxEntry::Freeze(FreezeMessage {}))) == count_directed(mb),
    decreases mb.len(),
{
    let f = MailboxEntry::Freeze(FreezeMessage {});
    if mb.len() == 0 {
        assert(mb.push(f)[0] == f);
        assert(mb.push(f).drop_first() =~= Seq::<MailboxEntry>::empty());
        assert(count_directed(Seq::<MailboxEntry>::empty()) == 0);
    } else {
        assert(mb.push(f)[0] == mb[0]);
        assert(mb.push(f).drop_first() =~= mb.drop_first().push(f));
        law_cutover_adds_no_traffic(mb.drop_first());
    }
}

/// Dequeueing a directed message removes exactly one unit of pending
/// traffic from the whole registry. With sends refused after the cutover
/// and the freeze broadcast adding no directed traffic, the pending count
/// strictly decreases with every step of the drain, so the drain
/// terminates, deterministically.
pub proof fn law_drain_progress(pre: World, post: World, id: Id)
    requires
        pre.has_actor(id),
        post.has_actor(id),
        post.actors@.len() == pre.actors@.len(),
        pre.actor_at(id).mailbox@.len() > 0,
        pre.actor_at(id).mailbox@[0] is Directed,
        post.actor_at(id).mailbox@ == pre.actor_at(id).mailbox@.drop_first(),
        pre.actors_unchanged_except(post, id),
    ensures
        total_pending(post.actors@) + 1 == total_pending(pre.actors@),
{
    let i = id.idx() as int;
    assert(post.actors@ =~= pre.actors@.update(i, post.actors@[i]));
    lemma_total_pending_update(pre.actors@, i, post.actors@[i]);
    assert(count_directed(pre.actor_at(id).mailbox@)
        == count_directed(pre.actor_at(id).mailbox@.drop_first()) + 1);
}

/// `state_lookup` distributes over concatenation: the first part wins when
/// it carries the id, else the scan continues into the second.
proof fn lemma_state_lookup_at_shift(
    xs: Seq<(Id, Seq<char>)>,
    ys: Seq<(Id, Seq<char>)>,
    id: Id,
    j: int,
)
    requires
        0 <= j <= ys.len(),
    ensures
        state_lookup_at(xs + ys, id, xs.len() + j) == state_lookup_at(ys, id, j),
    decreases ys.len() - j,
{
    if j < ys.len() {
        assert((xs + ys)[xs.len() + j] == ys[j]);
        lemma_state_lookup_at_shift(xs, ys, id, j + 1);
    }
}

proof fn lemma_state_lookup_at_append(
    xs: Seq<(Id, Seq<char>)>,
    ys: Seq<(Id, Seq<char>)>,
    id: Id,
    i: int,
)
    requires
        0 <= i <= xs.len(),
    ensures
        state_lookup_at(xs + ys, id, i) == (match state_lookup_at(xs, id, i) {
            Some(d) => Some(d),
            None => state_lookup(ys, id),
        }),
    decreases xs.len() - i,
{
    if i < xs.len() {
        assert((xs + ys)[i] == xs[i]);
        lemma_state_lookup_at_append(xs, ys, id, i + 1);
    } else {
        lemma_state_lookup_at_shift(xs, ys, id, 0);
    }
}

/// What the collected freeze responses record for an id: exactly the
/// durable state of the live actor in that id's slot, and nothing for a
/// slot with no live actor.
pub proof fn lemma_collect_states_lookup(actors: Seq<Option<ObjectActor>>, id: Id)
    requires
        forall|j: int| 0 <= j < actors.len()
            ==> ((#[trigger] actors[j]) matches Some(a) ==> a.id.idx() == j),
    ensures
        id.idx() < actors.len() && actors[id.idx() as int] is Some
            ==> state_lookup(collect_states(actors), id)
                == Some(actors[id.idx() as int]->Some_0.state.data@),
        !(id.idx() < actors.len() && actors[id.idx() as int] is Some)
            ==> state_lookup(collect_states(actors), id) is None,
    decreases actors.len(),
{
    if actors.len() > 0 {
        let front = actors.drop_last();
        assert(forall|j: int| 0 <= j < front.len() ==> front[j] == (#[trigger] actors[j]));
        lemma_collect_states_lookup(front, id);
        let tail = (match actors.last() {
            Some(a) => seq![(a.id, a.state.data@)],
            None => Seq::<(Id, Seq<char>)>::empty(),
        });
        lemma_state_lookup_at_append(collect_states(front), tail, id, 0);
        match actors.last() {
            Some(a) => {
                assert(state_lookup_at(tail, id, 1) is None);
                if id.idx() == actors.len() - 1 {
                    assert(a.id.idx() == id.idx());
                    assert(a.id == id);
                }
            },
            None => {},
        }
    }
}

/// Round-trip durability: restoring the image that a freeze produced — as
/// the contracts of `freeze` and `unfreeze_read` describe the two steps —
/// yields the same object graph, entrance, and user registry, and seeds
/// the actor spawned for every previously-live object with exactly the
/// durable state that the actor reported when it answered the freeze.
pub proof fn law_restore_round_trip(pre: World, image: SaveState, post: World)
    requires
        pre.wf(),
        image@.world == pre.state@,
        image@.states == collect_states(pre.actors@),
        post.state@ == image@.world,
        post.actors@.len() == image@.world.objects.len(),
        forall|i: int| 0 <= i < post.actors@.len()
            ==> ((#[trigger] post.actors@[i]) matches Some(a)
                && a.id.idx() == i
                && a.state.data@ == restored_data(image@.states, Id(i as usize))),
    ensures
        post.state@ == pre.state@,
        post.actors@.len() == pre.actors@.len(),
        forall|i: int| 0 <= i < pre.actors@.len()
            ==> ((#[trigger] pre.actors@[i]) matches Some(a)
                ==> (post.actors@[i] matches Some(b) && b.state.data@ == a.state.data@)),
{
    assert forall|i: int| 0 <= i < pre.actors@.len() && (#[trigger] pre.actors@[i]) is Some
        implies (post.actors@[i] matches Some(b)
            && b.state.data@ == pre.actors@[i]->Some_0.state.data@)
    by {
        let a = pre.actors@[i]->Some_0;
        assert(a.id.idx() == i);
        lemma_collect_states_lookup(pre.actors@, a.id);
        assert(Id(i as usize).idx() == i as nat);
        assert(Id(i as usize) == a.id);
    }
}

/// The sequence with the first occurrence of `v` removed (unchanged when
/// `v` does not occur).
pub open spec fn remove_first(s: Seq<u64>, v: u64) -> Seq<u64>
    decreases s.len(),
{
    if s.len() == 0 {
        s
    } else if s[0] == v {
        s.drop_first()
    } else {
        seq![s[0]] + remove_first(s.drop_first(), v)
    }
}

/// Removes the first occurrence of `v` from a copy of `s`.
fn remove_first_exec(s: &Vec<u64>, v: u64) -> (r: Vec<u64>)
    ensures
        r@ == remove_first(s@, v),
{
    let mut r: Vec<u64> = Vec::new();
    let mut i: usize = 0;
    let n = s.len();
    let mut skipped = false;
    while i < n
        invariant
            n == s@.len(),
            i <= n,
            !skipped ==> r@ == s@.take(i as int) && (forall|j: int| 0 <= j < i ==> s@[j] != v),
            skipped ==> r@ + s@.skip(i as int) == remove_first(s@, v),
        decreases n - i,
    {
        if !skipped && s[i] == v {
            skipped = true;
            proof {
                lemma_remove_first_split(s@, i as int);
                assert(r@ + s@.skip(i + 1) =~= s@.take(i as int) + s@.skip(i + 1));
            }
        } else {
            r.push(s[i]);
            proof {
                if skipped {
                    assert(r@ + s@.skip(i + 1) =~= (r@.drop_last() + s@.skip(i as int)));
                } else {
                    assert(r@ =~= s@.take(i + 1));
                }
            }
        }
        i = i + 1;
    }
    proof {
        if skipped {
            assert(r@ + s@.skip(n as int) =~= r@);
        } else {
            assert(r@ =~= s@);
            lemma_remove_first_absent(s@, v);
        }
    }
    r
}

/// When `v` first occurs at position `i`, removing it keeps the prefix
/// before `i` and the suffix after it.
proof fn lemma_remove_first_split(s: Seq<u64>, i: int)
    requires
        0 <= i < s.len(),
        forall|j: int| 0 <= j < i ==> s[j] != s[i],
    ensures
        remove_first(s, s[i]) == s.take(i) + s.skip(i + 1),
    decreases i,
{
    if i == 0 {
        assert(remove_first(s, s[0]) == s.drop_first());
        assert(s.drop_first() =~= s.take(0) + s.skip(1));
    } else {
        lemma_remove_first_split(s.drop_first(), i - 1);
        assert(s.drop_first()[i - 1] == s[i]);
        assert(remove_first(s, s[i]) == seq![s[0]] + remove_first(s.drop_first(), s[i]));
        assert(s.drop_first().take(i - 1) =~= s.take(i).drop_first());
        assert(s.drop_first().skip(i) =~= s.skip(i + 1));
        assert(seq![s[0]] + (s.take(i).drop_first() + s.skip(i + 1)) =~= s.take(i) + s.skip(i + 1));
    }
}

/// Removing a value that does not occur changes nothing.
proof fn lemma_remove_first_absent(s: Seq<u64>, v: u64)
    requires
        forall|j: int| 0 <= j < s.len() ==> s[j] != v,
    ensures
        remove_first(s, v) == s,
    decreases s.len(),
{
    if s.len() > 0 {
        lemma_remove_first_absent(s.drop_first(), v);
        assert(seq![s[0]] + s.drop_first() =~= s);
    }
}

} // verus!
