//! The search as a mathematical function: the state a search is in, one
//! expansion step, and a run of steps up to an iteration limit.

use vstd::prelude::*;
use crate::frontier::{is_first_min, PathEntry};

verus! {

/// Everything a search state holds, as mathematical values.
pub struct SearchView {
    pub iter: nat,
    pub max_iters: nat,
    pub max_cost: u64,
    pub frontier: Seq<PathEntry>,
    /// Node to `(came_from, cost)`.
    pub table: Map<u64, (u64, u64)>,
    /// Node of lowest heuristic value seen, with that value.
    pub closest: Option<(u64, u64)>,
    pub start: u64,
    /// Node to the cost of the edge it was last reached by.
    pub links: Map<u64, u64>,
    /// Node to the time its record was last written.
    pub stamps: Map<u64, nat>,
    pub clock: nat,
    /// Node to the heuristic value computed when it was last reached.
    pub seen_h: Map<u64, u64>,
}

/// How a run ended: at a goal node with its cost, or for one of the other
/// reasons.
pub enum Outcome {
    NoPath,
    Exhausted,
    Found(u64, u64),
    Pending,
}

/// The value a deterministic heuristic gives for each node.
pub open spec fn heuristic_of<H: Fn(u64) -> u64>(h: H) -> spec_fn(u64) -> u64 {
    |n: u64| choose|x: u64| h.ensures((n,), x)
}

/// The sequence a deterministic neighbor function gives for each node.
pub open spec fn neighbors_of<N: Fn(u64) -> Vec<(u64, u64)>>(nb: N) -> spec_fn(u64) -> Seq<(u64, u64)> {
    |n: u64| (choose|v: Vec<(u64, u64)>| nb.ensures((n,), v))@
}

/// The answer a deterministic goal predicate gives for each node.
pub open spec fn goal_of<G: Fn(u64) -> bool>(g: G) -> spec_fn(u64) -> bool {
    |n: u64| choose|b: bool| g.ensures((n,), b)
}

/// Whether the heuristic gives one value per node.
pub open spec fn heuristic_deterministic<H: Fn(u64) -> u64>(h: H) -> bool {
    forall|n: u64, a: u64, b: u64| #[trigger] h.ensures((n,), a) && #[trigger] h.ensures((n,), b) ==> a == b
}

/// Whether the neighbor function gives one sequence per node.
pub open spec fn neighbors_deterministic<N: Fn(u64) -> Vec<(u64, u64)>>(nb: N) -> bool {
    forall|n: u64, a: Vec<(u64, u64)>, b: Vec<(u64, u64)>|
        #[trigger] nb.ensures((n,), a) && #[trigger] nb.ensures((n,), b) ==> a@ == b@
}

/// Whether the goal predicate gives one answer per node.
pub open spec fn goal_deterministic<G: Fn(u64) -> bool>(g: G) -> bool {
    forall|n: u64, a: bool, b: bool| #[trigger] g.ensures((n,), a) && #[trigger] g.ensures((n,), b) ==> a == b
}

/// Whether each of the three callbacks gives one answer per node.
pub open spec fn deterministic<H: Fn(u64) -> u64, N: Fn(u64) -> Vec<(u64, u64)>, G: Fn(u64) -> bool>(
    h: H,
    nb: N,
    g: G,
) -> bool {
    heuristic_deterministic(h) && neighbors_deterministic(nb) && goal_deterministic(g)
}

/// The position of the entry that leaves the frontier next.
pub open spec fn first_min_index(s: Seq<PathEntry>) -> int {
    choose|i: int| is_first_min(s, i)
}

/// Considers the edge to `nb` of cost `tc` out of `node`, which was reached
/// from `came_from` at cost `node_cost`: records `nb` when that is strictly
/// cheaper than its recorded cost, and puts it on the frontier when it had
/// no record.
pub open spec fn relax(
    v: SearchView,
    node: u64,
    came_from: u64,
    node_cost: u64,
    nb: u64,
    tc: u64,
    hf: spec_fn(u64) -> u64,
) -> SearchView {
    let known = if v.table.contains_key(nb) { v.table[nb].1 } else { u64::MAX };
    let cost = node_cost.saturating_add(tc);
    if nb == came_from || cost >= known {
        v
    } else {
        let h = hf(nb);
        let closer = match v.closest {
            Some((_, ch)) => h < ch,
            None => true,
        };
        SearchView {
            table: v.table.insert(nb, (node, cost)),
            links: v.links.insert(nb, tc),
            stamps: v.stamps.insert(nb, v.clock),
            clock: v.clock + 1,
            seen_h: v.seen_h.insert(nb, h),
            closest: if closer { Some((nb, h)) } else { v.closest },
            frontier: if v.table.contains_key(nb) {
                v.frontier
            } else {
                v.frontier.push(PathEntry { cost_estimate: cost.saturating_add(h), node: nb })
            },
            ..v
        }
    }
}

/// Relaxes the edges `nbrs` out of `node`, in order.
pub open spec fn expand_all(
    v: SearchView,
    node: u64,
    came_from: u64,
    node_cost: u64,
    nbrs: Seq<(u64, u64)>,
    hf: spec_fn(u64) -> u64,
) -> SearchView
    decreases nbrs.len(),
{
    if nbrs.len() == 0 {
        v
    } else {
        let w = expand_all(v, node, came_from, node_cost, nbrs.drop_last(), hf);
        relax(w, node, came_from, node_cost, nbrs.last().0, nbrs.last().1, hf)
    }
}

/// One step: takes the next frontier entry and either ends the run with an
/// outcome or expands its node. The iteration count is left to `run`.
pub open spec fn step(
    v: SearchView,
    hf: spec_fn(u64) -> u64,
    nf: spec_fn(u64) -> Seq<(u64, u64)>,
    gf: spec_fn(u64) -> bool,
) -> (SearchView, Option<Outcome>) {
    if v.frontier.len() == 0 {
        (v, Some(Outcome::NoPath))
    } else {
        let i = first_min_index(v.frontier);
        let e = v.frontier[i];
        let popped = SearchView { frontier: v.frontier.remove(i), ..v };
        let (came_from, node_cost) = v.table[e.node];
        if gf(e.node) {
            (popped, Some(Outcome::Found(e.node, node_cost)))
        } else if e.cost_estimate > v.max_cost {
            (popped, Some(Outcome::Exhausted))
        } else {
            (expand_all(popped, e.node, came_from, node_cost, nf(e.node), hf), None)
        }
    }
}

/// Steps from `v` while fewer than `limit` iterations are done, and the
/// state and outcome where that ends.
pub open spec fn run(
    v: SearchView,
    limit: nat,
    hf: spec_fn(u64) -> u64,
    nf: spec_fn(u64) -> Seq<(u64, u64)>,
    gf: spec_fn(u64) -> bool,
) -> (SearchView, Outcome)
    decreases limit - v.iter,
{
    if v.iter < limit {
        let (w, o) = step(v, hf, nf, gf);
        match o {
            Some(out) => (w, out),
            None => run(SearchView { iter: v.iter + 1, ..w }, limit, hf, nf, gf),
        }
    } else if v.iter >= v.max_iters {
        (v, Outcome::Exhausted)
    } else {
        (v, Outcome::Pending)
    }
}

/// Relaxing edges leaves the iteration count and cap as they were.
pub proof fn lemma_expand_keeps_counts(
    v: SearchView,
    node: u64,
    came_from: u64,
    node_cost: u64,
    nbrs: Seq<(u64, u64)>,
    hf: spec_fn(u64) -> u64,
)
    ensures
        expand_all(v, node, came_from, node_cost, nbrs, hf).iter == v.iter,
        expand_all(v, node, came_from, node_cost, nbrs, hf).max_iters == v.max_iters,
    decreases nbrs.len(),
{
    if nbrs.len() > 0 {
        lemma_expand_keeps_counts(v, node, came_from, node_cost, nbrs.drop_last(), hf);
    }
}

/// With a goal predicate that holds of no node, a run up to the iteration
/// cap ends with the cap reached or the frontier empty: `Exhausted` or
/// `NoPath`, never `Found` or `Pending`.
pub proof fn lemma_run_without_goal(
    v: SearchView,
    hf: spec_fn(u64) -> u64,
    nf: spec_fn(u64) -> Seq<(u64, u64)>,
    gf: spec_fn(u64) -> bool,
)
    requires
        forall|n: u64| !#[trigger] gf(n),
    ensures
        run(v, v.max_iters, hf, nf, gf).1 is Exhausted || run(v, v.max_iters, hf, nf, gf).1 is NoPath,
    decreases v.max_iters - v.iter,
{
    if v.iter < v.max_iters && v.frontier.len() > 0 {
        let i = first_min_index(v.frontier);
        let e = v.frontier[i];
        let popped = SearchView { frontier: v.frontier.remove(i), ..v };
        let (came_from, node_cost) = v.table[e.node];
        assert(!gf(e.node));
        if e.cost_estimate <= v.max_cost {
            let w = expand_all(popped, e.node, came_from, node_cost, nf(e.node), hf);
            lemma_expand_keeps_counts(popped, e.node, came_from, node_cost, nf(e.node), hf);
            let next = SearchView { iter: v.iter + 1, ..w };
            lemma_run_without_goal(next, hf, nf, gf);
        }
    }
}

} // verus!
