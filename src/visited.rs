//! The visited-node table: for every node reached so far, the node it was
//! reached from and the cheapest known cost from the start.

use vstd::prelude::*;

verus! {

/// The hash strategy of the table.
#[verifier::external_type_specification]
#[verifier::external_body]
pub struct ExDefaultHashBuilder(hashbrown::DefaultHashBuilder);

/// Hash table from a node to its record `(came_from, cost)`.
///
/// The table lives in a `hashbrown::HashMap`, which Verus cannot see into;
/// its contents are described by `visited_entries`.
#[verifier::external_body]
pub struct VisitedTable {
    table: hashbrown::HashMap<u64, (u64, u64)>,
}

/// What a `VisitedTable` holds: node to `(came_from, cost)`.
pub uninterp spec fn visited_entries(t: VisitedTable) -> Map<u64, (u64, u64)>;

impl VisitedTable {
    /// Relies on `hashbrown::HashMap::with_capacity_and_hasher`: the new map
    /// is empty.
    #[verifier::external_body]
    pub(crate) fn with_hasher(hasher: hashbrown::DefaultHashBuilder) -> (r: VisitedTable)
        ensures
            visited_entries(r).dom().is_empty(),
    {
        VisitedTable { table: hashbrown::HashMap::with_capacity_and_hasher(1, hasher) }
    }

    /// Relies on `hashbrown::HashMap::get`: the value stored under `k`, if any.
    #[verifier::external_body]
    pub(crate) fn lookup(&self, k: u64) -> (r: Option<(u64, u64)>)
        ensures
            r == (if visited_entries(*self).contains_key(k) {
                Some(visited_entries(*self)[k])
            } else {
                None::<(u64, u64)>
            }),
    {
        self.table.get(&k).copied()
    }

    /// Relies on `hashbrown::HashMap::insert`: `k` now maps to `v`, the other
    /// keys keep their values, and the result tells whether `k` was present.
    #[verifier::external_body]
    pub(crate) fn store(&mut self, k: u64, v: (u64, u64)) -> (r: bool)
        ensures
            visited_entries(*final(self)) == visited_entries(*old(self)).insert(k, v),
            r == visited_entries(*old(self)).contains_key(k),
    {
        self.table.insert(k, v).is_some()
    }
}

} // verus!
