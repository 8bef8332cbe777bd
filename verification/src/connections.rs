use vstd::prelude::*;
use multimap::MultiMap;

verus! {

// The transient chat/connection registry is kept in a multimap of the
// `multimap` crate, as a mapping from an object's numeric id to the handles
// of the client connections currently attached to it. The registry is never
// persisted; it is rebuilt as clients reconnect after a restore. The
// directory holds it as an `Option`, `None` standing for the registry that
// has never had a connection attached, so that an empty directory needs no
// call into the outside crate.

#[verifier::external_type_specification]
#[verifier::external_body]
#[verifier::reject_recursive_types(K)]
#[verifier::reject_recursive_types(V)]
#[verifier::reject_recursive_types(S)]
pub struct ExMultiMap<K, V, S>(MultiMap<K, V, S>);

/// What a connection multimap holds: for each present key, the values
/// inserted for it, in insertion order.
pub uninterp spec fn mm_view(m: MultiMap<usize, u64>) -> Map<usize, Seq<u64>>;

/// What the registry holds: nothing before the first attach, else the
/// contents of the multimap.
pub open spec fn reg_view(m: Option<MultiMap<usize, u64>>) -> Map<usize, Seq<u64>> {
    match m {
        None => Map::<usize, Seq<u64>>::empty(),
        Some(mm) => mm_view(mm),
    }
}

/// Relies on multimap::MultiMap::insert: pushes the value onto the vector
/// for an occupied key, or binds the key to a fresh one-element vector;
/// and on multimap::MultiMap::new for the very first attach, which creates
/// an empty multimap.
#[verifier::external_body]
pub fn reg_insert(m: &mut Option<MultiMap<usize, u64>>, k: usize, v: u64)
    ensures
        reg_view(*old(m)).contains_key(k) ==> reg_view(*final(m))
            == reg_view(*old(m)).insert(k, reg_view(*old(m))[k].push(v)),
        !reg_view(*old(m)).contains_key(k) ==> reg_view(*final(m))
            == reg_view(*old(m)).insert(k, seq![v]),
        (*final(m) matches Some(mm) && reg_view(*final(m)) == mm_view(mm)),
{
    match m {
        Some(mm) => mm.insert(k, v),
        None => {
            let mut mm = MultiMap::new();
            mm.insert(k, v);
            *m = Some(mm);
        },
    }
}

/// Relies on multimap::MultiMap::get_vec: returns the vector bound to the
/// key, or None if the key is absent. The result is cloned so that the
/// caller gets plain values.
#[verifier::external_body]
pub fn reg_get(m: &Option<MultiMap<usize, u64>>, k: usize) -> (r: Option<Vec<u64>>)
    ensures
        reg_view(*m).contains_key(k) <==> r is Some,
        r matches Some(v) ==> v@ == reg_view(*m)[k],
{
    match m {
        Some(mm) => mm.get_vec(&k).cloned(),
        None => None,
    }
}

/// Relies on multimap::MultiMap::remove: unbinds the key entirely and
/// returns the vector that was bound to it, or None if it was absent.
#[verifier::external_body]
pub fn reg_remove(m: &mut Option<MultiMap<usize, u64>>, k: usize) -> (r: Option<Vec<u64>>)
    ensures
        reg_view(*old(m)).contains_key(k) ==> (r matches Some(v) && v@ == reg_view(*old(m))[k]
            && reg_view(*final(m)) == reg_view(*old(m)).remove(k)),
        !reg_view(*old(m)).contains_key(k) ==> r is None
            && reg_view(*final(m)) == reg_view(*old(m)),
{
    match m {
        Some(mm) => mm.remove(&k),
        None => None,
    }
}

} // verus!
