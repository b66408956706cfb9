//! Trusted view of the `slab` crate's reusable-slot store.
//!
//! The component slots of all entities live in one `slab::Slab`. The slab is
//! modelled by two names: `slab_entries`, the map from live keys to stored
//! entities, and `slab_vacant`, the chain of freed keys that the slab hands
//! out again, most recently freed first. Every contract below states what
//! the slab's own source shows for the corresponding method.

use vstd::prelude::*;
use crate::entity::Entity;

verus! {

#[verifier::external_type_specification]
#[verifier::external_body]
#[verifier::reject_recursive_types(T)]
pub struct ExSlab<T>(slab::Slab<T>);

/// What the slab stores: the map from each occupied key to its value.
pub uninterp spec fn slab_entries(s: slab::Slab<Entity>) -> Map<int, Entity>;

/// The slab's chain of vacant slots, in the order they will be reused:
/// the most recently freed key first. Keys past the chain are handed out
/// by growing the slab.
pub uninterp spec fn slab_vacant(s: slab::Slab<Entity>) -> Seq<int>;

/// Relies on slab::Slab::new: a fresh slab stores nothing and has no
/// vacant slot.
#[verifier::external_body]
pub(crate) fn slab_new() -> (s: slab::Slab<Entity>)
    ensures
        slab_entries(s) =~= Map::empty(),
        slab_vacant(s) =~= Seq::empty(),
{
    slab::Slab::new()
}

/// Relies on slab::Slab::insert: the new key is the head of the vacant
/// chain, or the number of stored values when no freed slot is left; the
/// value is stored under that key.
#[verifier::external_body]
pub(crate) fn slab_insert(s: &mut slab::Slab<Entity>, e: Entity) -> (key: usize)
    ensures
        !slab_entries(*old(s)).dom().contains(key as int),
        slab_entries(*final(s)) == slab_entries(*old(s)).insert(key as int, e),
        slab_vacant(*old(s)).len() > 0 ==> {
            &&& key as int == slab_vacant(*old(s))[0]
            &&& slab_vacant(*final(s)) == slab_vacant(*old(s)).drop_first()
        },
        slab_vacant(*old(s)).len() == 0 ==> {
            &&& key as int == slab_entries(*old(s)).dom().len()
            &&& slab_vacant(*final(s)) == slab_vacant(*old(s))
        },
{
    s.insert(e)
}

/// Relies on slab::Slab::remove: removes and returns the value under the
/// key and pushes the key onto the head of the vacant chain.
#[verifier::external_body]
pub(crate) fn slab_remove(s: &mut slab::Slab<Entity>, key: usize) -> (e: Entity)
    requires
        slab_entries(*old(s)).dom().contains(key as int),
    ensures
        e == slab_entries(*old(s))[key as int],
        slab_entries(*final(s)) == slab_entries(*old(s)).remove(key as int),
        slab_vacant(*final(s)) == seq![key as int] + slab_vacant(*old(s)),
{
    s.remove(key)
}

/// Relies on slab::Slab::get: the value stored under an occupied key.
#[verifier::external_body]
pub(crate) fn slab_get(s: &slab::Slab<Entity>, key: usize) -> (e: &Entity)
    requires
        slab_entries(*s).dom().contains(key as int),
    ensures
        *e == slab_entries(*s)[key as int],
{
    s.get(key).unwrap()
}

/// Relies on slab::Slab::get_mut (through IndexMut): replaces the value
/// stored under an occupied key.
#[verifier::external_body]
pub(crate) fn slab_set(s: &mut slab::Slab<Entity>, key: usize, e: Entity)
    requires
        slab_entries(*old(s)).dom().contains(key as int),
    ensures
        slab_entries(*final(s)) == slab_entries(*old(s)).insert(key as int, e),
        slab_vacant(*final(s)) == slab_vacant(*old(s)),
{
    s[key] = e;
}

/// Relies on slab::Slab::contains: whether the key is occupied.
#[verifier::external_body]
pub(crate) fn slab_contains(s: &slab::Slab<Entity>, key: usize) -> (r: bool)
    ensures
        r == slab_entries(*s).dom().contains(key as int),
{
    s.contains(key)
}

/// Relies on slab::Slab::len: the number of stored values.
#[verifier::external_body]
pub(crate) fn slab_len(s: &slab::Slab<Entity>) -> (n: usize)
    ensures
        n == slab_entries(*s).dom().len(),
{
    s.len()
}

/// Relies on slab::Slab::iter: visits exactly the occupied slots, in
/// increasing key order.
#[verifier::external_body]
pub(crate) fn slab_keys(s: &slab::Slab<Entity>) -> (keys: Vec<usize>)
    ensures
        forall|i: int| 0 <= i < keys@.len()
            ==> slab_entries(*s).dom().contains(#[trigger] keys@[i] as int),
        forall|k: int| #[trigger] slab_entries(*s).dom().contains(k)
            ==> exists|i: int| 0 <= i < keys@.len() && keys@[i] as int == k,
        forall|i: int, j: int| 0 <= i < j < keys@.len()
            ==> #[trigger] keys@[i] < #[trigger] keys@[j],
{
    s.iter().map(|(k, _)| k).collect()
}

/// Relies on slab::Slab::clone: clones the stored values slot for slot and
/// keeps the vacant chain.
#[verifier::external_body]
pub(crate) fn slab_clone(s: &slab::Slab<Entity>) -> (r: slab::Slab<Entity>)
    ensures
        slab_entries(r) == slab_entries(*s),
        slab_vacant(r) == slab_vacant(*s),
{
    s.clone()
}

} // verus!
