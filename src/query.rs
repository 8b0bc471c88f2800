use vstd::prelude::*;

use crate::inventory::Inventory;
use crate::key::Key;

verus! {

/// Slot marker that stands for "anywhere in the inventory".
pub struct AnySlot;

/// The containment predicate: does an inventory hold an item of kind `kind`,
/// in the slot `slot` when one is given, anywhere otherwise.
pub struct HasInInventory {
    pub kind: u64,
    pub slot: Option<Key>,
}

impl HasInInventory {
    pub open spec fn holds(self, inv: Inventory) -> bool {
        match self.slot {
            Some(key) => match inv.lookup(key) {
                Some(slot) => slot.holds_kind(self.kind),
                None => false,
            },
            None => inv.has_kind_spec(self.kind),
        }
    }

    pub fn new(kind: u64, slot: Option<Key>) -> (r: Self)
        ensures
            r.kind == kind,
            r.slot == slot,
    {
        HasInInventory { kind, slot }
    }

    pub fn anywhere(kind: u64) -> (r: Self)
        ensures
            r.kind == kind,
            r.slot is None,
    {
        HasInInventory { kind, slot: None }
    }

    /// Evaluates the predicate on one inventory. An unprovisioned slot key
    /// gives `false`.
    pub fn matches(&self, inv: &Inventory) -> (r: bool)
        requires
            inv.wf(),
        ensures
            r == self.holds(*inv),
    {
        match self.slot {
            Some(key) => match inv.get_slot(key) {
                Ok(slot) => slot.contains_type(self.kind),
                Err(_) => false,
            },
            None => inv.has_kind(self.kind),
        }
    }
}

} // verus!
