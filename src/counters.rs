use vstd::prelude::*;
use crate::ids::IdAllocator;
use ic_stable_structures::{BTreeMap as StableBTreeMap, DefaultMemoryImpl};

verus! {

/// Identifier counters kept in stable memory, so that a restarted process
/// resumes each sequence where it stopped: a map from a collection's slot to
/// the last identifier issued in it.
#[verifier::external_body]
pub struct CounterCells {
    map: StableBTreeMap<u8, u64, DefaultMemoryImpl>,
}

/// What the persisted counters hold.
pub uninterp spec fn counter_values(c: CounterCells) -> Map<u8, u64>;

impl CounterCells {
    /// Relies on ic-stable-structures' `BTreeMap::init` over the default
    /// memory: it loads the map kept there, or starts an empty one. What it
    /// holds depends on what the memory held, so nothing is promised of it.
    #[verifier::external_body]
    fn load_default() -> (r: CounterCells) {
        CounterCells { map: StableBTreeMap::init(DefaultMemoryImpl::default()) }
    }

    /// Relies on `BTreeMap::into_memory` and `BTreeMap::init`: a map loaded
    /// again from its own memory holds what was stored in it.
    #[verifier::external_body]
    fn reload(self) -> (r: CounterCells)
        ensures
            counter_values(r) == counter_values(self),
    {
        CounterCells { map: StableBTreeMap::init(self.map.into_memory()) }
    }

    /// Relies on `BTreeMap::get`: the value stored under `slot`, if any.
    #[verifier::external_body]
    fn get(&self, slot: u8) -> (r: Option<u64>)
        ensures
            r == (if counter_values(*self).contains_key(slot) {
                Some(counter_values(*self)[slot])
            } else {
                None
            }),
    {
        self.map.get(&slot)
    }

    /// Relies on `BTreeMap::insert`: afterwards `slot` holds `value` and the
    /// other slots are unchanged.
    #[verifier::external_body]
    fn insert(&mut self, slot: u8, value: u64)
        ensures
            counter_values(*final(self)) == counter_values(*old(self)).insert(slot, value),
    {
        self.map.insert(slot, value);
    }
}

/// The counters kept in the default stable memory.
pub fn open_counters() -> (r: CounterCells) {
    CounterCells::load_default()
}

/// The same counters, loaded again from their memory as after a restart.
pub fn restart_counters(cells: CounterCells) -> (r: CounterCells)
    ensures
        counter_values(r) == counter_values(cells),
{
    cells.reload()
}

/// The counter kept under `slot` (0 when none was saved).
pub open spec fn saved_counter(values: Map<u8, u64>, slot: u8) -> u64 {
    if values.contains_key(slot) {
        values[slot]
    } else {
        0
    }
}

/// Persists the state of `ids` under `slot`.
pub fn save_counter(cells: &mut CounterCells, slot: u8, ids: &IdAllocator)
    ensures
        counter_values(*final(cells)) == counter_values(*old(cells)).insert(slot, ids.last),
        saved_counter(counter_values(*final(cells)), slot) == ids.last,
{
    cells.insert(slot, ids.saved());
}

/// The counter saved under `slot`, ready to issue the next identifier.
pub fn load_counter(cells: &CounterCells, slot: u8) -> (r: IdAllocator)
    ensures
        r.last == saved_counter(counter_values(*cells), slot),
{
    match cells.get(slot) {
        Some(last) => IdAllocator::restore(last),
        None => IdAllocator::new(),
    }
}

/// Saving a counter and loading it after a restart resumes the sequence:
/// the next identifier exceeds every one issued before the restart.
pub proof fn lemma_restart_resumes(before: Map<u8, u64>, slot: u8, ids: IdAllocator, issued: u64)
    requires
        issued <= ids.last,
        ids.last < u64::MAX,
    ensures
        issued < saved_counter(before.insert(slot, ids.last), slot) + 1,
{
}

} // verus!
