//! Incremental A* search with an iteration budget.
//!
//! A search is created for a start node and advanced by repeated calls, each
//! allowed a number of expansion steps. When no goal can be reached within
//! the limits, the result carries the path to the node of lowest heuristic
//! value seen so far.

use vstd::prelude::*;
use vstd::math::min;
use crate::frontier::{is_first_min, Frontier, PathEntry};
use crate::model::{
    deterministic, expand_all, goal_of, heuristic_deterministic, heuristic_of,
    neighbors_deterministic, neighbors_of, relax, run, Outcome,
    SearchView,
};
use crate::path::Path;
use crate::visited::{visited_entries, VisitedTable};

verus! {

/// Why a call to `Astar::advance` returned.
pub enum PathResult {
    /// The frontier ran empty and no node reached was a goal. Holds the path
    /// to the node of lowest heuristic value seen, or an empty path.
    NoPath(Path),
    /// The iteration cap or the cost ceiling was reached. Holds the path to
    /// the node of lowest heuristic value seen, or an empty path.
    Exhausted(Path),
    /// A goal was reached: the path to it and its cost.
    Found(Path, u64),
    /// The budget of this call was spent; call again to go on.
    Pending,
}

impl PathResult {
    /// The outcome, with a found path reduced to its last node.
    pub open spec fn outcome(&self) -> Outcome {
        match self {
            PathResult::NoPath(_) => Outcome::NoPath,
            PathResult::Exhausted(_) => Outcome::Exhausted,
            PathResult::Found(p, c) => Outcome::Found(p@.last(), *c),
            PathResult::Pending => Outcome::Pending,
        }
    }

    /// The path carried, empty for `Pending`.
    pub open spec fn path_view(&self) -> Seq<u64> {
        match self {
            PathResult::NoPath(p) => p@,
            PathResult::Exhausted(p) => p@,
            PathResult::Found(p, _) => p@,
            PathResult::Pending => Seq::empty(),
        }
    }

    /// The path and its cost when a goal was reached, else `None`.
    pub fn into_path(self) -> (r: Option<(Path, u64)>)
        ensures
            r == (match self {
                PathResult::Found(p, c) => Some((p, c)),
                _ => None::<(Path, u64)>,
            }),
    {
        match self {
            PathResult::Found(path, cost) => Some((path, cost)),
            _ => None,
        }
    }

    /// The same outcome with `f` applied to the path it carries.
    pub fn map(self, f: impl FnOnce(Path) -> Path) -> (r: PathResult)
        requires
            match self {
                PathResult::NoPath(p) => f.requires((p,)),
                PathResult::Exhausted(p) => f.requires((p,)),
                PathResult::Found(p, _) => f.requires((p,)),
                PathResult::Pending => true,
            },
        ensures
            match (self, r) {
                (PathResult::NoPath(p), PathResult::NoPath(q)) => f.ensures((p,), q),
                (PathResult::Exhausted(p), PathResult::Exhausted(q)) => f.ensures((p,), q),
                (PathResult::Found(p, c), PathResult::Found(q, d)) => f.ensures((p,), q) && c == d,
                (PathResult::Pending, PathResult::Pending) => true,
                _ => false,
            },
    {
        match self {
            PathResult::NoPath(p) => PathResult::NoPath(f(p)),
            PathResult::Exhausted(p) => PathResult::Exhausted(f(p)),
            PathResult::Found(p, cost) => PathResult::Found(f(p), cost),
            PathResult::Pending => PathResult::Pending,
        }
    }
}

/// Whether, in the table `t` with update stamps `st`, node `a` ranks below
/// node `b`: a lower cost, or the same cost and an earlier stamp.
pub open spec fn ranks_below(t: Map<u64, (u64, u64)>, st: Map<u64, nat>, a: u64, b: u64) -> bool {
    t[a].1 < t[b].1 || (t[a].1 == t[b].1 && st[a] < st[b])
}

/// The nodes met by following `came_from` back from `n`, listed from the
/// first one to `n`. The walk stops at a node that is its own predecessor
/// (the start) and, in a table that does not keep the ranking, where the
/// rank would not go down.
pub open spec fn trace(t: Map<u64, (u64, u64)>, st: Map<u64, nat>, n: u64) -> Seq<u64>
    decreases t[n].1, st[n],
{
    let p = t[n].0;
    if t.contains_key(n) && p != n && t.contains_key(p) && ranks_below(t, st, p, n) {
        trace(t, st, p).push(n)
    } else {
        seq![n]
    }
}

/// Sum of the edge costs `links` along `p`, one for each node after the first.
pub open spec fn link_sum(links: Map<u64, u64>, p: Seq<u64>) -> int
    decreases p.len(),
{
    if p.len() <= 1 {
        0
    } else {
        link_sum(links, p.drop_last()) + links[p.last()]
    }
}

/// The state of one search.
pub struct Astar {
    iter: usize,
    max_iters: usize,
    max_cost: u64,
    potential_nodes: Frontier,
    visited_nodes: VisitedTable,
    /// Node of lowest heuristic value seen so far, with that value.
    closest_node: Option<(u64, u64)>,
    start: Ghost<u64>,
    /// For each node reached, the cost of the edge it was last reached by.
    links: Ghost<Map<u64, u64>>,
    /// For each node reached, when its record was last written.
    stamps: Ghost<Map<u64, nat>>,
    clock: Ghost<nat>,
    /// For each node reached, the heuristic value computed when its record
    /// was last written.
    seen_h: Ghost<Map<u64, u64>>,
}

impl View for Astar {
    type V = SearchView;

    closed spec fn view(&self) -> SearchView {
        SearchView {
            iter: self.iter as nat,
            max_iters: self.max_iters as nat,
            max_cost: self.max_cost,
            frontier: self.potential_nodes@,
            table: visited_entries(self.visited_nodes),
            closest: self.closest_node,
            start: self.start@,
            links: self.links@,
            stamps: self.stamps@,
            clock: self.clock@,
            seen_h: self.seen_h@,
        }
    }
}

impl Astar {
    /// The visited-node table: node to `(came_from, cost)`.
    pub closed spec fn table(&self) -> Map<u64, (u64, u64)> {
        visited_entries(self.visited_nodes)
    }

    /// The frontier entries, in the order they were put on it.
    pub closed spec fn frontier(&self) -> Seq<PathEntry> {
        self.potential_nodes@
    }

    /// Expansion steps done so far, over all calls.
    pub closed spec fn iterations(&self) -> nat {
        self.iter as nat
    }

    /// The most expansion steps the search may do over all calls.
    pub closed spec fn iteration_cap(&self) -> nat {
        self.max_iters as nat
    }

    /// The largest cost estimate the search expands.
    pub closed spec fn cost_ceiling(&self) -> u64 {
        self.max_cost
    }

    pub closed spec fn start_node(&self) -> u64 {
        self.start@
    }

    /// Node of lowest heuristic value seen so far, with that value.
    pub closed spec fn closest(&self) -> Option<(u64, u64)> {
        self.closest_node
    }

    /// For each node reached, the cost of the edge it was last reached by.
    pub closed spec fn edge_costs(&self) -> Map<u64, u64> {
        self.links@
    }

    /// For each node reached but the start, the heuristic value computed
    /// when it was last reached.
    pub closed spec fn heuristic_seen(&self) -> Map<u64, u64> {
        self.seen_h@
    }

    /// The path that the table gives from the start to `n`.
    pub closed spec fn path_to(&self, n: u64) -> Seq<u64> {
        trace(self.table(), self.stamps@, n)
    }

    /// The fallback path: to the node of lowest heuristic value seen, or
    /// empty when no node but the start was reached.
    pub open spec fn closest_path(&self) -> Seq<u64> {
        match self.closest() {
            Some((c, _)) => self.path_to(c),
            None => Seq::empty(),
        }
    }

    /// The path that a result of outcome `o` carries in this state.
    pub open spec fn expected_path(&self, o: Outcome) -> Seq<u64> {
        match o {
            Outcome::Found(n, _) => self.path_to(n),
            Outcome::Exhausted => self.closest_path(),
            Outcome::NoPath => self.closest_path(),
            Outcome::Pending => Seq::empty(),
        }
    }

    /// The sum of the edge costs along `p`.
    pub open spec fn path_cost(&self, p: Seq<u64>) -> int {
        link_sum(self.edge_costs(), p)
    }

    /// The invariant of the search state.
    pub closed spec fn wf(&self) -> bool {
        let t = self.table();
        let st = self.stamps@;
        let s = self.start@;
        &&& t.contains_key(s)
        &&& t[s] == (s, 0u64)
        &&& forall|n: u64| #[trigger] t.contains_key(n) ==> st.contains_key(n) && st[n] < self.clock@
        &&& forall|n: u64|
            #[trigger] t.contains_key(n) && n != s ==> {
                let p = t[n].0;
                &&& t.contains_key(p)
                &&& ranks_below(t, st, p, n)
                &&& self.links@.contains_key(n)
                &&& t[p].1 + self.links@[n] <= t[n].1
                &&& self.seen_h@.contains_key(n)
            }
        &&& forall|i: int| 0 <= i < self.potential_nodes@.len()
            ==> t.contains_key(#[trigger] self.potential_nodes@[i].node)
        &&& match self.closest_node {
            None => t.dom() == set![s],
            Some((c, h)) => {
                &&& t.contains_key(c)
                &&& c != s
                &&& forall|n: u64| #[trigger] t.contains_key(n) && n != s ==> h <= self.seen_h@[n]
            },
        }
    }

    /// The parts of the state that the contracts name are those of its view.
    pub proof fn lemma_view_parts(&self)
        ensures
            self.table() == self@.table,
            self.frontier() == self@.frontier,
            self.iterations() == self@.iter,
            self.iteration_cap() == self@.max_iters,
            self.cost_ceiling() == self@.max_cost,
            self.start_node() == self@.start,
            self.closest() == self@.closest,
            self.edge_costs() == self@.links,
            self.heuristic_seen() == self@.seen_h,
            forall|n: u64| #[trigger] self.path_to(n) == trace(self@.table, self@.stamps, n),
    {
    }

    /// In a well-formed state, the path to a reached node starts at the
    /// start node, ends at that node, follows `came_from` links, and costs
    /// at most the node's recorded cost.
    proof fn lemma_path_to(&self, n: u64)
        requires
            self.wf(),
            self.table().contains_key(n),
        ensures
            self.path_to(n).len() >= 1,
            self.path_to(n)[0] == self.start_node(),
            self.path_to(n).last() == n,
            forall|i: int| 0 <= i < self.path_to(n).len() ==> self.table().contains_key(
                #[trigger] self.path_to(n)[i]),
            forall|i: int| 1 <= i < self.path_to(n).len() ==>
                self.table()[#[trigger] self.path_to(n)[i]].0 == self.path_to(n)[i - 1],
            self.path_cost(self.path_to(n)) <= self.table()[n].1,
            n == self.start_node() ==> self.path_to(n) == seq![n],
        decreases self.table()[n].1, self.stamps@[n],
    {
        let t = self.table();
        let st = self.stamps@;
        let p = t[n].0;
        if n == self.start_node() {
            assert(self.path_to(n) == seq![n]);
        } else {
            assert(t.contains_key(n) && n != self.start@);
            self.lemma_path_to(p);
            let tp = self.path_to(p);
            assert(self.path_to(n) == tp.push(n));
            assert(tp.push(n).drop_last() =~= tp);
            assert forall|i: int| 1 <= i < self.path_to(n).len() implies
                self.table()[#[trigger] self.path_to(n)[i]].0 == self.path_to(n)[i - 1] by {
                if i < tp.len() {
                    assert(self.path_to(n)[i] == tp[i]);
                }
            }
            assert forall|i: int| 0 <= i < self.path_to(n).len() implies self.table().contains_key(
                #[trigger] self.path_to(n)[i]) by {
                if i < tp.len() {
                    assert(self.path_to(n)[i] == tp[i]);
                }
            }
        }
    }

    /// The fallback path that `Exhausted` and `NoPath` carry is empty exactly
    /// when no node but the start has been reached. Otherwise it runs from
    /// the start to the tracked closest node, whose heuristic value is the
    /// lowest among those computed for the nodes reached.
    pub proof fn lemma_fallback_path(&self)
        requires
            self.wf(),
        ensures
            (self.closest_path().len() == 0) == (self.table().dom() == set![self.start_node()]),
            match self.closest() {
                Some((c, h)) => {
                    &&& c != self.start_node()
                    &&& self.table().contains_key(c)
                    &&& self.closest_path()[0] == self.start_node()
                    &&& self.closest_path().last() == c
                    &&& forall|n: u64| #[trigger]
                        self.table().contains_key(n) && n != self.start_node() ==> h
                            <= self.heuristic_seen()[n]
                },
                None => self.closest_path().len() == 0,
            },
    {
        match self.closest_node {
            Some((c, h)) => {
                self.lemma_path_to(c);
                assert(!set![self.start@].contains(c));
            },
            None => {},
        }
    }

    /// Two searches in the same state, advanced with the same budget and the
    /// same deterministic callbacks, end in the same state with the same
    /// result: the same outcome, cost and path.
    pub proof fn lemma_advance_deterministic<H: Fn(u64) -> u64, N: Fn(u64) -> Vec<(u64, u64)>, G: Fn(u64) -> bool>(
        a0: Astar,
        a1: Astar,
        r: PathResult,
        b0: Astar,
        b1: Astar,
        q: PathResult,
        iters: nat,
        heuristic: H,
        neighbors: N,
        satisfied: G,
    )
        requires
            a0@ == b0@,
            deterministic(heuristic, neighbors, satisfied),
            (a1@, r.outcome()) == run(
                a0@,
                min(a0.iteration_cap() as int, (a0.iterations() + iters) as int) as nat,
                heuristic_of(heuristic),
                neighbors_of(neighbors),
                goal_of(satisfied),
            ),
            (b1@, q.outcome()) == run(
                b0@,
                min(b0.iteration_cap() as int, (b0.iterations() + iters) as int) as nat,
                heuristic_of(heuristic),
                neighbors_of(neighbors),
                goal_of(satisfied),
            ),
            r.path_view() == a1.expected_path(r.outcome()),
            q.path_view() == b1.expected_path(q.outcome()),
        ensures
            a1@ == b1@,
            r.outcome() == q.outcome(),
            r.path_view() == q.path_view(),
    {
        assert(a0.iteration_cap() == b0.iteration_cap() && a0.iterations() == b0.iterations());
        assert(forall|n: u64| a1.path_to(n) == b1.path_to(n));
    }

    /// The path from the start to `end`, following `came_from` back from
    /// `end` and reversing.
    fn reconstruct_path_to(&self, end: u64) -> (r: Path)
        requires
            self.wf(),
            self.table().contains_key(end),
        ensures
            r@ == self.path_to(end),
    {
        let ghost t = self.table();
        let ghost st = self.stamps@;
        let mut back: Vec<u64> = Vec::new();
        back.push(end);
        let mut cnode: u64 = end;
        loop
            invariant
                self.wf(),
                t == self.table(),
                st == self.stamps@,
                t.contains_key(cnode),
                back@.len() >= 1,
                back@.last() == cnode,
                trace(t, st, end) == trace(t, st, cnode) + back@.drop_last().reverse(),
            ensures
                trace(t, st, end) == back@.reverse(),
            decreases t[cnode].1, st[cnode],
        {
            let came_from = match self.visited_nodes.lookup(cnode) {
                Some(entry) => entry.0,
                None => cnode,
            };
            if came_from == cnode {
                proof {
                    assert(cnode == self.start@);
                    assert(trace(t, st, cnode) == seq![cnode]);
                    assert(seq![cnode] + back@.drop_last().reverse() =~= back@.reverse());
                }
                break;
            }
            proof {
                let old_back = back@;
                assert(trace(t, st, cnode) == trace(t, st, came_from).push(cnode));
                assert(old_back.push(came_from).drop_last().reverse()
                    =~= seq![cnode] + old_back.drop_last().reverse());
                assert(trace(t, st, came_from).push(cnode) + old_back.drop_last().reverse()
                    =~= trace(t, st, came_from) + (seq![cnode] + old_back.drop_last().reverse()));
            }
            back.push(came_from);
            cnode = came_from;
        }
        let len = back.len();
        let mut nodes: Vec<u64> = Vec::new();
        let mut i: usize = len;
        while i > 0
            invariant
                len == back@.len(),
                i <= len,
                nodes@.len() == len - i,
                forall|j: int| 0 <= j < len - i ==> nodes@[j] == back@[len - 1 - j],
            decreases i,
        {
            i = i - 1;
            nodes.push(back[i]);
        }
        proof {
            assert(nodes@ =~= back@.reverse());
        }
        Path::from_nodes(nodes)
    }

    /// A search from `start` that may take `max_iters` expansion steps in all,
    /// with no cost ceiling.
    pub fn new(max_iters: usize, start: u64, hasher: hashbrown::DefaultHashBuilder) -> (r: Astar)
        ensures
            r.wf(),
            r.start_node() == start,
            r.iteration_cap() == max_iters,
            r.cost_ceiling() == u64::MAX,
            r.iterations() == 0,
            r.frontier() == seq![PathEntry { cost_estimate: 0, node: start }],
            r.table() == map![start => (start, 0u64)],
            r.closest() is None,
    {
        let mut visited_nodes = VisitedTable::with_hasher(hasher);
        visited_nodes.store(start, (start, 0));
        let r = Astar {
            iter: 0,
            max_iters,
            max_cost: u64::MAX,
            potential_nodes: Frontier::singleton(PathEntry { cost_estimate: 0, node: start }),
            visited_nodes,
            closest_node: None,
            start: Ghost(start),
            links: Ghost(Map::empty()),
            stamps: Ghost(Map::empty().insert(start, 0nat)),
            clock: Ghost(1),
            seen_h: Ghost(Map::empty()),
        };
        proof {
            assert(r.table() =~= map![start => (start, 0u64)]);
            assert(r.table().dom() =~= set![start]);
        }
        r
    }

    /// The same search with `max_cost` as ceiling on the cost estimate.
    pub fn with_max_cost(self, max_cost: u64) -> (r: Astar)
        requires
            self.wf(),
        ensures
            r.wf(),
            r.cost_ceiling() == max_cost,
            r.start_node() == self.start_node(),
            r.iteration_cap() == self.iteration_cap(),
            r.iterations() == self.iterations(),
            r.frontier() == self.frontier(),
            r.table() == self.table(),
            r.closest() == self.closest(),
            r.edge_costs() == self.edge_costs(),
            r.heuristic_seen() == self.heuristic_seen(),
            forall|n: u64| r.path_to(n) == self.path_to(n),
    {
        let mut s = self;
        s.max_cost = max_cost;
        s
    }

    /// Sets the iteration cap; the search may already be past it.
    pub fn set_max_iters(&mut self, max_iters: usize)
        requires
            old(self).wf(),
        ensures
            final(self).wf(),
            final(self).iteration_cap() == max_iters,
            final(self).cost_ceiling() == old(self).cost_ceiling(),
            final(self).start_node() == old(self).start_node(),
            final(self).iterations() == old(self).iterations(),
            final(self).frontier() == old(self).frontier(),
            final(self).table() == old(self).table(),
            final(self).closest() == old(self).closest(),
            final(self).edge_costs() == old(self).edge_costs(),
            final(self).heuristic_seen() == old(self).heuristic_seen(),
            forall|n: u64| final(self).path_to(n) == old(self).path_to(n),
    {
        self.max_iters = max_iters;
    }
    /// The fallback path of `Exhausted` and `NoPath`.
    fn closest_fallback(&self) -> (r: Path)
        requires
            self.wf(),
        ensures
            r@ == self.closest_path(),
    {
        match self.closest_node {
            Some((c, _)) => self.reconstruct_path_to(c),
            None => Path::empty(),
        }
    }

    /// Advances the search by at most `iters` expansion steps, and never past
    /// the iteration cap counted over all calls.
    ///
    /// Each step takes the frontier entry of lowest estimate. If the frontier
    /// is empty the result is `NoPath`. If `satisfied` holds of its node the
    /// result is `Found`, with the path and the node's recorded cost. If its
    /// estimate exceeds the cost ceiling the result is `Exhausted`. Otherwise
    /// the node is expanded: each neighbor other than the node it was reached
    /// from is recorded when the cost through this node is strictly lower
    /// than its recorded one, and put on the frontier the first time it is
    /// recorded. Once the cap is reached the result is `Exhausted`; when the
    /// budget of the call is spent before it, `Pending`.
    ///
    /// Costs and estimates add with saturation at `u64::MAX`; a cost that
    /// saturates is never below a recorded one, so it is never recorded.
    ///
    /// The search finds cheapest paths only where the heuristic never
    /// overestimates and recorded costs settle before a node is expanded: a
    /// node whose cost improves is not put on the frontier again.
    pub fn advance(
        &mut self,
        iters: usize,
        heuristic: impl Fn(u64) -> u64,
        neighbors: impl Fn(u64) -> Vec<(u64, u64)>,
        satisfied: impl Fn(u64) -> bool,
    ) -> (r: PathResult)
        requires
            old(self).wf(),
            forall|n: u64| heuristic.requires((n,)),
            forall|n: u64| neighbors.requires((n,)),
            forall|n: u64| satisfied.requires((n,)),
        ensures
            final(self).wf(),
            final(self).start_node() == old(self).start_node(),
            final(self).iteration_cap() == old(self).iteration_cap(),
            final(self).cost_ceiling() == old(self).cost_ceiling(),
            old(self).iterations() <= final(self).iterations(),
            final(self).iterations() == old(self).iterations() || final(self).iterations()
                <= min(old(self).iteration_cap() as int, old(self).iterations() + iters),
            old(self).iterations() <= old(self).iteration_cap() ==> final(self).iterations()
                <= final(self).iteration_cap(),
            iters == 0 && old(self).iterations() < old(self).iteration_cap() ==> r is Pending,
            final(self).iterations() == old(self).iterations() ==> final(self).table() == old(
                self,
            ).table() && final(self).closest() == old(self).closest(),
            r.path_view() == final(self).expected_path(r.outcome()),
            deterministic(heuristic, neighbors, satisfied) ==> (final(self)@, r.outcome()) == run(
                old(self)@,
                min(old(self).iteration_cap() as int, old(self).iterations() + iters) as nat,
                heuristic_of(heuristic),
                neighbors_of(neighbors),
                goal_of(satisfied),
            ),
            old(self).frontier().len() == 0 && old(self).iterations() < min(
                old(self).iteration_cap() as int,
                old(self).iterations() + iters,
            ) ==> r is NoPath,
            forall|n: u64| #[trigger]
                old(self).table().contains_key(n) ==> final(self).table().contains_key(n)
                    && final(self).table()[n].1 <= old(self).table()[n].1,
            forall|n: u64| #[trigger]
                final(self).table().contains_key(n) && (!old(self).table().contains_key(n)
                    || final(self).table()[n] != old(self).table()[n]) ==> exists|v: Vec<(u64, u64)>|
                    #[trigger] neighbors.ensures((final(self).table()[n].0,), v) && v@.contains(
                        (n, final(self).edge_costs()[n]),
                    ),
            forall|n: u64| #[trigger]
                final(self).heuristic_seen().contains_key(n) && (!old(self).heuristic_seen().contains_key(n)
                    || final(self).heuristic_seen()[n] != old(self).heuristic_seen()[n])
                    ==> heuristic.ensures((n,), final(self).heuristic_seen()[n]),
            match r {
                PathResult::Found(p, c) => {
                    &&& p@.len() >= 1
                    &&& final(self).table().contains_key(p@.last())
                    &&& p@ == final(self).path_to(p@.last())
                    &&& p@[0] == final(self).start_node()
                    &&& satisfied.ensures((p@.last(),), true)
                    &&& c == final(self).table()[p@.last()].1
                    &&& final(self).path_cost(p@) <= c
                    &&& forall|i: int| 1 <= i < p@.len() ==>
                        final(self).table()[#[trigger] p@[i]].0 == p@[i - 1]
                },
                PathResult::Exhausted(p) => {
                    &&& p@ == final(self).closest_path()
                    &&& (final(self).iterations() >= final(self).iteration_cap() || (
                        final(self).cost_ceiling() < u64::MAX && forall|i: int|
                            0 <= i < final(self).frontier().len()
                                ==> #[trigger] final(self).frontier()[i].cost_estimate
                                > final(self).cost_ceiling()))
                },
                PathResult::NoPath(p) => {
                    &&& p@ == final(self).closest_path()
                    &&& final(self).frontier().len() == 0
                    &&& final(self).iterations() - old(self).iterations() >= old(self).frontier().len()
                },
                PathResult::Pending => {
                    &&& final(self).iterations() == old(self).iterations() + iters
                    &&& final(self).iterations() < final(self).iteration_cap()
                },
            },
    {
        let ghost s0 = *self;
        let sum = self.iter.saturating_add(iters);
        let iter_limit: usize = if self.max_iters < sum { self.max_iters } else { sum };
        while self.iter < iter_limit
            invariant
                self.wf(),
                s0 == *old(self),
                forall|n: u64| heuristic.requires((n,)),
                forall|n: u64| neighbors.requires((n,)),
                forall|n: u64| satisfied.requires((n,)),
                self.start@ == s0.start@,
                self.max_iters == s0.max_iters,
                self.max_cost == s0.max_cost,
                iter_limit == min(s0.max_iters as int, s0.iter.saturating_add(iters) as int),
                s0.iter <= self.iter,
                self.iter == s0.iter || self.iter <= iter_limit,
                self.grew_from(s0, heuristic, neighbors),
                self.potential_nodes@.len() + (self.iter - s0.iter) >= s0.potential_nodes@.len(),
                self.iter == s0.iter ==> self.table() == s0.table() && self.closest_node
                    == s0.closest_node,
                s0.potential_nodes@.len() == 0 ==> self.iter == s0.iter
                    && self.potential_nodes@.len() == 0,
                deterministic(heuristic, neighbors, satisfied) ==> run(
                    self@,
                    iter_limit as nat,
                    heuristic_of(heuristic),
                    neighbors_of(neighbors),
                    goal_of(satisfied),
                ) == run(
                    s0@,
                    iter_limit as nat,
                    heuristic_of(heuristic),
                    neighbors_of(neighbors),
                    goal_of(satisfied),
                ),
            decreases iter_limit - self.iter,
        {
            let ghost before_pop = self.potential_nodes@;
            let popped = self.potential_nodes.pop_min();
            match popped {
                None => {
                    return PathResult::NoPath(self.closest_fallback());
                },
                Some(entry) => {
                    proof {
                        let i = choose|i: int| is_first_min(before_pop, i) && popped == Some(
                            before_pop[i],
                        ) && self.potential_nodes@ == before_pop.remove(i);
                        assert forall|k: int| 0 <= k < self.potential_nodes@.len() implies self.table().contains_key(
                            #[trigger] self.potential_nodes@[k].node) by {
                            if k < i {
                                assert(self.potential_nodes@[k] == before_pop[k]);
                            } else {
                                assert(self.potential_nodes@[k] == before_pop[k + 1]);
                            }
                        }
                        assert(self.table().contains_key(before_pop[i].node));
                    }
                    let node = entry.node;
                    let rec = self.visited_nodes.lookup(node);
                    let (came_from, node_cost) = rec.unwrap();
                    if satisfied(node) {
                        let p = self.reconstruct_path_to(node);
                        proof {
                            self.lemma_path_to(node);
                        }
                        return PathResult::Found(p, node_cost);
                    } else if entry.cost_estimate > self.max_cost {
                        proof {
                            let i = choose|i: int| is_first_min(before_pop, i) && popped == Some(
                                before_pop[i],
                            ) && self.potential_nodes@ == before_pop.remove(i);
                            assert forall|k: int| 0 <= k < self.potential_nodes@.len() implies
                                #[trigger] self.potential_nodes@[k].cost_estimate > self.max_cost by {
                                if k < i {
                                    assert(self.potential_nodes@[k] == before_pop[k]);
                                } else {
                                    assert(self.potential_nodes@[k] == before_pop[k + 1]);
                                }
                            }
                        }
                        return PathResult::Exhausted(self.closest_fallback());
                    }
                    self.expand(node, came_from, node_cost, &heuristic, &neighbors, Ghost(s0));
                },
            }
            self.iter = self.iter + 1;
        }
        if self.iter >= self.max_iters {
            PathResult::Exhausted(self.closest_fallback())
        } else {
            PathResult::Pending
        }
    }

    /// Whether every record of `self` that differs from `s0` came from an
    /// edge that `neighbors` yielded, and every heuristic value that differs
    /// from `s0` from `heuristic`; and no recorded cost went up.
    closed spec fn grew_from(
        &self,
        s0: Astar,
        heuristic: impl Fn(u64) -> u64,
        neighbors: impl Fn(u64) -> Vec<(u64, u64)>,
    ) -> bool {
        &&& forall|n: u64| #[trigger]
            s0.table().contains_key(n) ==> self.table().contains_key(n) && self.table()[n].1
                <= s0.table()[n].1
        &&& forall|n: u64| #[trigger]
            self.table().contains_key(n) && (!s0.table().contains_key(n) || self.table()[n]
                != s0.table()[n]) ==> exists|v: Vec<(u64, u64)>|
                #[trigger] neighbors.ensures((self.table()[n].0,), v) && v@.contains(
                    (n, self.links@[n]),
                )
        &&& forall|n: u64| #[trigger]
            self.seen_h@.contains_key(n) && (!s0.seen_h@.contains_key(n) || self.seen_h@[n]
                != s0.seen_h@[n]) ==> heuristic.ensures((n,), self.seen_h@[n])
    }

    /// Expands `node`, whose record is `(came_from, node_cost)`: records each
    /// neighbor reached more cheaply through it, and puts the newly reached
    /// ones on the frontier.
    fn expand(
        &mut self,
        node: u64,
        came_from: u64,
        node_cost: u64,
        heuristic: &impl Fn(u64) -> u64,
        neighbors: &impl Fn(u64) -> Vec<(u64, u64)>,
        Ghost(s0): Ghost<Astar>,
    )
        requires
            old(self).wf(),
            old(self).table().contains_key(node),
            old(self).table()[node] == (came_from, node_cost),
            forall|n: u64| heuristic.requires((n,)),
            forall|n: u64| neighbors.requires((n,)),
            old(self).grew_from(s0, *heuristic, *neighbors),
        ensures
            final(self).wf(),
            final(self).grew_from(s0, *heuristic, *neighbors),
            final(self).potential_nodes@.len() >= old(self).potential_nodes@.len(),
            heuristic_deterministic(*heuristic) && neighbors_deterministic(*neighbors)
                ==> final(self)@ == expand_all(
                old(self)@,
                node,
                came_from,
                node_cost,
                neighbors_of(*neighbors)(node),
                heuristic_of(*heuristic),
            ),
            final(self).start@ == old(self).start@,
            final(self).iter == old(self).iter,
            final(self).max_iters == old(self).max_iters,
            final(self).max_cost == old(self).max_cost,
    {
        let nbrs = neighbors(node);
        let mut j: usize = 0;
        while j < nbrs.len()
            invariant
                self.wf(),
                self.table().contains_key(node),
                self.table()[node] == (came_from, node_cost),
                forall|n: u64| heuristic.requires((n,)),
                neighbors.ensures((node,), nbrs),
                j <= nbrs@.len(),
                self.grew_from(s0, *heuristic, *neighbors),
                self.potential_nodes@.len() >= old(self).potential_nodes@.len(),
                heuristic_deterministic(*heuristic) && neighbors_deterministic(*neighbors)
                    ==> self@ == expand_all(
                    old(self)@,
                    node,
                    came_from,
                    node_cost,
                    nbrs@.take(j as int),
                    heuristic_of(*heuristic),
                ),
                self.start@ == old(self).start@,
                self.iter == old(self).iter,
                self.max_iters == old(self).max_iters,
                self.max_cost == old(self).max_cost,
            decreases nbrs.len() - j,
        {
            let ghost w = self@;
            let (neighbor, transition_cost) = nbrs[j];
            proof {
                assert(nbrs@.take(j + 1).drop_last() =~= nbrs@.take(j as int));
                assert(nbrs@.take(j + 1).last() == (neighbor, transition_cost));
            }
            if neighbor != came_from {
                let neighbor_cost = match self.visited_nodes.lookup(neighbor) {
                    Some(e) => e.1,
                    None => u64::MAX,
                };
                let cost = node_cost.saturating_add(transition_cost);
                if cost < neighbor_cost {
                    let ghost t0 = self.table();
                    let ghost pre = *self;
                    let previously_visited = self.visited_nodes.store(neighbor, (node, cost));
                    let h = heuristic(neighbor);
                    proof {
                        self.links@ = self.links@.insert(neighbor, transition_cost);
                        self.stamps@ = self.stamps@.insert(neighbor, self.clock@);
                        self.clock@ = self.clock@ + 1;
                        self.seen_h@ = self.seen_h@.insert(neighbor, h);
                    }
                    let cost_estimate = cost.saturating_add(h);
                    let closer = match self.closest_node {
                        Some((_, ch)) => h < ch,
                        None => true,
                    };
                    if closer {
                        self.closest_node = Some((neighbor, h));
                    }
                    if !previously_visited {
                        self.potential_nodes.push(PathEntry { cost_estimate, node: neighbor });
                    }
                    proof {
                        let t = self.table();
                        let st = self.stamps@;
                        let s = self.start@;
                        assert(neighbor != s);
                        assert(neighbor != node);
                        assert(t == t0.insert(neighbor, (node, cost)));
                        assert(nbrs@.contains((neighbor, transition_cost))) by {
                            assert(nbrs@[j as int] == (neighbor, transition_cost));
                        }
                        assert forall|n: u64| #[trigger] t.contains_key(n) && n != s implies {
                            let p = t[n].0;
                            &&& t.contains_key(p)
                            &&& ranks_below(t, st, p, n)
                            &&& self.links@.contains_key(n)
                            &&& t[p].1 + self.links@[n] <= t[n].1
                            &&& self.seen_h@.contains_key(n)
                        } by {
                            if n != neighbor {
                                assert(t0.contains_key(n));
                            }
                        }
                        assert forall|i: int| 0 <= i < self.potential_nodes@.len() implies t.contains_key(
                            #[trigger] self.potential_nodes@[i].node) by {
                            if i < pre.potential_nodes@.len() {
                                assert(self.potential_nodes@[i] == pre.potential_nodes@[i]);
                                assert(t0.contains_key(pre.potential_nodes@[i].node));
                            }
                        }
                        match self.closest_node {
                            None => {},
                            Some((c, hc)) => {
                                assert forall|n: u64| #[trigger] t.contains_key(n) && n != s implies hc
                                    <= self.seen_h@[n] by {
                                    if n != neighbor {
                                        assert(t0.contains_key(n));
                                    }
                                }
                            },
                        }
                        assert forall|n: u64| #[trigger]
                            t.contains_key(n) && (!s0.table().contains_key(n) || t[n]
                                != s0.table()[n]) implies exists|v: Vec<(u64, u64)>|
                                #[trigger] neighbors.ensures((t[n].0,), v) && v@.contains(
                                    (n, self.links@[n]),
                                ) by {
                            if n == neighbor {
                                assert(neighbors.ensures((t[n].0,), nbrs));
                            } else {
                                assert(t0.contains_key(n));
                                assert(pre.table()[n] == t[n]);
                            }
                        }
                        assert forall|n: u64| #[trigger] s0.table().contains_key(n) implies t.contains_key(n)
                            && t[n].1 <= s0.table()[n].1 by {
                            assert(t0.contains_key(n));
                        }
                        if heuristic_deterministic(*heuristic) {
                            let h2 = heuristic_of(*heuristic)(neighbor);
                            assert(heuristic.ensures((neighbor,), h));
                            assert(heuristic.ensures((neighbor,), h2));
                            assert(h2 == h);
                            assert(self@ == relax(
                                w,
                                node,
                                came_from,
                                node_cost,
                                neighbor,
                                transition_cost,
                                heuristic_of(*heuristic),
                            ));
                        }
                    }
                }
            }
            j = j + 1;
        }
        proof {
            assert(nbrs@.take(nbrs@.len() as int) =~= nbrs@);
            if neighbors_deterministic(*neighbors) {
                let v2 = choose|v: Vec<(u64, u64)>| neighbors.ensures((node,), v);
                assert(neighbors.ensures((node,), v2));
                assert(neighbors_of(*neighbors)(node) == nbrs@);
                if heuristic_deterministic(*heuristic) {
                    assert(self@ == expand_all(
                        old(self)@,
                        node,
                        came_from,
                        node_cost,
                        nbrs@.take(nbrs@.len() as int),
                        heuristic_of(*heuristic),
                    ));
                }
            }
        }
    }

}

} // verus!
