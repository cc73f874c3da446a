//! The frontier of the search: discovered nodes waiting to be expanded, each
//! with its cost estimate, taken out cheapest estimate first.

use vstd::prelude::*;

verus! {

/// One frontier entry: the cost so far plus the heuristic, and the node.
#[derive(Clone, Copy, Debug)]
pub struct PathEntry {
    pub cost_estimate: u64,
    pub node: u64,
}

/// Whether `i` is the first position of `s` that holds a lowest estimate.
pub open spec fn is_first_min(s: Seq<PathEntry>, i: int) -> bool {
    &&& 0 <= i < s.len()
    &&& forall|j: int| 0 <= j < s.len() ==> s[i].cost_estimate <= #[trigger] s[j].cost_estimate
    &&& forall|j: int| 0 <= j < i ==> s[i].cost_estimate < #[trigger] s[j].cost_estimate
}

/// A min-priority queue of entries, kept in the order of insertion.
///
/// Entries are never merged: a node may stand in it more than once.
/// Among entries of equal estimate the earliest inserted leaves first.
pub struct Frontier {
    entries: Vec<PathEntry>,
}

impl View for Frontier {
    type V = Seq<PathEntry>;

    closed spec fn view(&self) -> Seq<PathEntry> {
        self.entries@
    }
}

impl Frontier {
    /// A frontier holding exactly `e`.
    pub fn singleton(e: PathEntry) -> (r: Frontier)
        ensures
            r@ == seq![e],
    {
        let mut entries: Vec<PathEntry> = Vec::new();
        entries.push(e);
        proof {
            assert(entries@ =~= seq![e]);
        }
        Frontier { entries }
    }

    /// Adds `e` after every entry already there.
    pub fn push(&mut self, e: PathEntry)
        ensures
            final(self)@ == old(self)@.push(e),
    {
        self.entries.push(e);
    }

    /// Takes out the first entry of lowest estimate, or `None` if there is
    /// none; the other entries keep their order.
    pub fn pop_min(&mut self) -> (r: Option<PathEntry>)
        ensures
            old(self)@.len() == 0 ==> r is None && final(self)@ == old(self)@,
            old(self)@.len() > 0 ==> exists|i: int|
                #[trigger] is_first_min(old(self)@, i) && r == Some(old(self)@[i])
                    && final(self)@ == old(self)@.remove(i),
    {
        let n = self.entries.len();
        if n == 0 {
            return None;
        }
        let mut best: usize = 0;
        let mut k: usize = 1;
        while k < n
            invariant
                n == self.entries@.len(),
                1 <= k <= n,
                best < k,
                forall|j: int| 0 <= j < k ==> self.entries@[best as int].cost_estimate
                    <= #[trigger] self.entries@[j].cost_estimate,
                forall|j: int| 0 <= j < best ==> self.entries@[best as int].cost_estimate
                    < #[trigger] self.entries@[j].cost_estimate,
            decreases n - k,
        {
            if self.entries[k].cost_estimate < self.entries[best].cost_estimate {
                best = k;
            }
            k = k + 1;
        }
        let e = self.entries.remove(best);
        proof {
            assert(is_first_min(old(self)@, best as int));
        }
        Some(e)
    }
}

} // verus!
