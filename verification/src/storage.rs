//! The trusted boundary around the durable structures of
//! `ic_stable_structures`: the ordered map that holds each document's byte
//! framing under its identifier, and the cell that holds the identifier
//! counter. Everything the rest of the library knows about them is stated
//! here, over [`store_contents`] and [`counter_value`].

use vstd::prelude::*;
use ic_stable_structures::{DefaultMemoryImpl, StableBTreeMap, StableCell};
use ic_stable_structures::memory_manager::{MemoryId, MemoryManager, VirtualMemory};

verus! {

/// The durable ordered map: encoded documents by identifier. Verus cannot
/// take the outside struct's own trait bounds, so the map sits opaque in a
/// private field and is reached only through the functions below. It lives
/// in its own virtual region of the one stable memory, so that it never
/// shares bytes with the counter.
#[verifier::external_body]
pub struct DocStore {
    map: StableBTreeMap<u64, Vec<u8>, VirtualMemory<DefaultMemoryImpl>>,
}

/// The durable cell holding the identifier counter, opaque for the same
/// reason as [`DocStore`] and likewise in a virtual region of its own.
#[verifier::external_body]
pub struct IdCell {
    cell: StableCell<u64, VirtualMemory<DefaultMemoryImpl>>,
}

/// What the durable map holds: each stored identifier's byte string.
pub uninterp spec fn store_contents(m: DocStore) -> Map<u64, Seq<u8>>;

/// What the durable cell holds.
pub uninterp spec fn counter_value(c: IdCell) -> u64;

/// Relies on `MemoryManager::init`/`get` of ic_stable_structures, which
/// carve disjoint virtual regions out of the one stable memory, and on
/// `BTreeMap::new` and `Cell::new`, which write a fresh empty map and a
/// fresh zero cell over their regions whatever those held before.
#[verifier::external_body]
pub(crate) fn storage_new() -> (r: (DocStore, IdCell))
    ensures
        forall|k: u64| !store_contents(r.0).contains_key(k),
        counter_value(r.1) == 0,
{
    let mm = MemoryManager::init(DefaultMemoryImpl::default());
    let cell = StableCell::new(mm.get(MemoryId::new(0)), 0);
    let map = StableBTreeMap::new(mm.get(MemoryId::new(1)));
    (DocStore { map }, IdCell { cell })
}

/// Relies on `MemoryManager::init`/`get` of ic_stable_structures, which
/// reopen the virtual regions persisted in the one stable memory, and on
/// `BTreeMap::init` and `Cell::init`, which load whatever map and counter
/// those regions hold (an empty map and a zero counter on fresh memory).
/// Nothing can be promised of persisted contents, so the caller checks
/// them.
#[verifier::external_body]
pub(crate) fn storage_open() -> (r: (DocStore, IdCell))
{
    let mm = MemoryManager::init(DefaultMemoryImpl::default());
    let cell = StableCell::init(mm.get(MemoryId::new(0)), 0);
    let map = StableBTreeMap::init(mm.get(MemoryId::new(1)));
    (DocStore { map }, IdCell { cell })
}

/// Relies on `BTreeMap::get` of ic_stable_structures: returns the value
/// stored under the key, if one is present.
#[verifier::external_body]
pub(crate) fn store_get(m: &DocStore, id: u64) -> (r: Option<Vec<u8>>)
    ensures
        match r {
            Some(v) => store_contents(*m).contains_key(id) && v@ == store_contents(*m)[id],
            None => !store_contents(*m).contains_key(id),
        },
{
    m.map.get(&id)
}

/// Relies on `BTreeMap::insert` of ic_stable_structures: upserts the pair
/// and returns the previous value under the key, if any.
#[verifier::external_body]
pub(crate) fn store_insert(m: &mut DocStore, id: u64, v: Vec<u8>) -> (prev: Option<Vec<u8>>)
    ensures
        store_contents(*final(m)) == store_contents(*old(m)).insert(id, v@),
        match prev {
            Some(p) => store_contents(*old(m)).contains_key(id) && p@ == store_contents(
                *old(m),
            )[id],
            None => !store_contents(*old(m)).contains_key(id),
        },
{
    m.map.insert(id, v)
}

/// Relies on `BTreeMap::remove` of ic_stable_structures: deletes the key
/// and returns the value it held, if any.
#[verifier::external_body]
pub(crate) fn store_remove(m: &mut DocStore, id: u64) -> (prev: Option<Vec<u8>>)
    ensures
        store_contents(*final(m)) == store_contents(*old(m)).remove(id),
        match prev {
            Some(p) => store_contents(*old(m)).contains_key(id) && p@ == store_contents(
                *old(m),
            )[id],
            None => !store_contents(*old(m)).contains_key(id),
        },
{
    m.map.remove(&id)
}

/// Relies on `BTreeMap::iter` of ic_stable_structures: visits every entry
/// exactly once, in ascending key order.
#[verifier::external_body]
pub(crate) fn store_entries(m: &DocStore) -> (r: Vec<(u64, Vec<u8>)>)
    ensures
        forall|i: int|
            0 <= i < r@.len() ==> {
                &&& store_contents(*m).contains_key((#[trigger] r@[i]).0)
                &&& r@[i].1@ == store_contents(*m)[r@[i].0]
            },
        forall|k: u64|
            store_contents(*m).contains_key(k) ==> exists|i: int|
                0 <= i < r@.len() && (#[trigger] r@[i]).0 == k,
        forall|i: int, j: int| 0 <= i < j < r@.len() ==> r@[i].0 < r@[j].0,
{
    let mut out = Vec::new();
    for e in m.map.iter() {
        out.push((*e.key(), e.value()));
    }
    out
}

/// Relies on `Cell::get` of ic_stable_structures: returns the held value.
#[verifier::external_body]
pub(crate) fn counter_get(c: &IdCell) -> (r: u64)
    ensures
        r == counter_value(*c),
{
    *c.cell.get()
}

/// Relies on `Cell::set` of ic_stable_structures: writes the value and
/// returns the previously held one.
#[verifier::external_body]
pub(crate) fn counter_set(c: &mut IdCell, v: u64) -> (prev: u64)
    ensures
        counter_value(*final(c)) == v,
        prev == counter_value(*old(c)),
{
    c.cell.set(v)
}

} // verus!
