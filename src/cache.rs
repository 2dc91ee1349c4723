use vstd::prelude::*;
use fnv::FnvHashMap;
use crate::recurrence::recurrence;

verus! {

/// The map type that backs a `Cache`.
type CoordMap = FnvHashMap<(u32, u32), u32>;

#[verifier::external_type_specification]
#[verifier::external_body]
#[verifier::reject_recursive_types(H)]
pub struct ExBuildHasherDefault<H>(std::hash::BuildHasherDefault<H>);

#[verifier::external_type_specification]
#[verifier::external_body]
pub struct ExFnvHasher(fnv::FnvHasher);

/// Relies on `HashMap::with_hasher` (here with fnv's default-built hasher):
/// the new map holds no entry.
#[verifier::external_body]
fn new_map() -> (m: CoordMap)
    ensures
        m@.dom().is_empty(),
{
    FnvHashMap::with_hasher(Default::default())
}

/// Relies on `HashMap::get` (with fnv's hasher, which hashes a key the same
/// way every time): it finds the value held at the key, if any.
#[verifier::external_body]
fn map_get(m: &CoordMap, key: &(u32, u32)) -> (r: Option<u32>)
    ensures
        r == (if m@.contains_key(*key) { Some(m@[*key]) } else { None::<u32> }),
{
    m.get(key).copied()
}

/// Relies on `HashMap::insert` (with fnv's hasher): afterwards the key maps
/// to the value and every other entry is as it was.
#[verifier::external_body]
fn map_insert(m: &mut CoordMap, key: (u32, u32), value: u32)
    ensures
        final(m)@ == old(m)@.insert(key, value),
{
    m.insert(key, value);
}

/// Results of the recurrence already computed during one evaluation,
/// keyed by coordinate pair.
pub struct Cache {
    map: CoordMap,
}

impl View for Cache {
    type V = Map<(u32, u32), u32>;

    closed spec fn view(&self) -> Map<(u32, u32), u32> {
        self.map@
    }
}

impl Cache {
    /// Every entry holds the recurrence's value at its coordinates.
    pub open spec fn wf(&self) -> bool {
        forall|k: (u32, u32)| #[trigger]
            self@.contains_key(k) ==> self@[k] == recurrence(k.0 as nat, k.1 as nat)
    }

    /// An empty cache.
    pub fn new() -> (c: Cache)
        ensures
            c@.dom().is_empty(),
            c.wf(),
    {
        Cache { map: new_map() }
    }

    /// The value stored at `(x, y)`, if any.
    pub fn get(&self, x: u32, y: u32) -> (r: Option<u32>)
        ensures
            r == (if self@.contains_key((x, y)) { Some(self@[(x, y)]) } else { None::<u32> }),
    {
        map_get(&self.map, &(x, y))
    }

    /// Stores `value` at `(x, y)`; a stored entry is never changed, since
    /// the value put there is the recurrence's own.
    pub fn put(&mut self, x: u32, y: u32, value: u32)
        requires
            old(self).wf(),
            value == recurrence(x as nat, y as nat),
        ensures
            final(self)@ == old(self)@.insert((x, y), value),
            old(self)@.contains_key((x, y)) ==> final(self)@ == old(self)@,
            final(self).wf(),
    {
        map_insert(&mut self.map, (x, y), value);
        proof {
            if old(self)@.contains_key((x, y)) {
                assert(self@ =~= old(self)@);
            }
        }
        assert forall|k: (u32, u32)| #[trigger] self@.contains_key(k) implies self@[k]
            == recurrence(k.0 as nat, k.1 as nat) by {
            if k != (x, y) {
                assert(old(self)@.contains_key(k));
            }
        }
    }
}

} // verus!
