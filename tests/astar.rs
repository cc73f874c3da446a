use hashbrown::DefaultHashBuilder;
use pathfind::astar::{Astar, PathResult};
use pathfind::path::Path;

fn line_neighbors(n: u64) -> Vec<(u64, u64)> {
    let mut v = Vec::new();
    if n > 0 {
        v.push((n - 1, 1));
    }
    if n < 10 {
        v.push((n + 1, 1));
    }
    v
}

fn dist_to_7(n: u64) -> u64 {
    if n > 7 { n - 7 } else { 7 - n }
}

fn is_7(n: u64) -> bool {
    n == 7
}

fn search(max_iters: usize) -> Astar {
    Astar::new(max_iters, 0, DefaultHashBuilder::default())
}

fn found(r: PathResult) -> (Vec<u64>, u64) {
    match r {
        PathResult::Found(p, c) => (p.nodes().clone(), c),
        _ => panic!("expected a found path"),
    }
}

#[test]
fn line_graph_found_in_one_call() {
    let mut a = search(100);
    let (path, cost) = found(a.advance(100, dist_to_7, line_neighbors, is_7));
    assert_eq!(path, vec![0, 1, 2, 3, 4, 5, 6, 7]);
    assert_eq!(cost, 7);
}

#[test]
fn line_graph_found_over_several_calls() {
    let mut a = search(100);
    let mut calls = 0;
    let result = loop {
        calls += 1;
        match a.advance(2, dist_to_7, line_neighbors, is_7) {
            PathResult::Pending => assert!(calls < 10),
            other => break other,
        }
    };
    assert_eq!(calls, 4);
    let (path, cost) = found(result);
    assert_eq!(path, vec![0, 1, 2, 3, 4, 5, 6, 7]);
    assert_eq!(cost, 7);
}

#[test]
fn first_call_with_small_budget_is_pending() {
    let mut a = search(100);
    assert!(matches!(a.advance(2, dist_to_7, line_neighbors, is_7), PathResult::Pending));
}

#[test]
fn cap_reached_gives_closest_partial_path() {
    let mut a = search(2);
    match a.advance(2, dist_to_7, line_neighbors, is_7) {
        PathResult::Exhausted(p) => assert_eq!(p.nodes(), &vec![0, 1, 2]),
        _ => panic!("expected exhaustion"),
    }
}

#[test]
fn cap_spread_over_calls_is_never_exceeded() {
    let mut a = search(5);
    assert!(matches!(a.advance(2, dist_to_7, line_neighbors, is_7), PathResult::Pending));
    assert!(matches!(a.advance(2, dist_to_7, line_neighbors, is_7), PathResult::Pending));
    match a.advance(2, dist_to_7, line_neighbors, is_7) {
        PathResult::Exhausted(p) => assert_eq!(p.nodes(), &vec![0, 1, 2, 3, 4, 5]),
        _ => panic!("expected exhaustion"),
    }
    match a.advance(2, dist_to_7, line_neighbors, is_7) {
        PathResult::Exhausted(p) => assert_eq!(p.nodes(), &vec![0, 1, 2, 3, 4, 5]),
        _ => panic!("expected exhaustion"),
    }
}

#[test]
fn zero_cap_gives_empty_path() {
    let mut a = search(0);
    match a.advance(5, dist_to_7, line_neighbors, is_7) {
        PathResult::Exhausted(p) => assert!(p.is_empty()),
        _ => panic!("expected exhaustion"),
    }
}

#[test]
fn zero_budget_is_pending() {
    let mut a = search(10);
    assert!(matches!(a.advance(0, dist_to_7, line_neighbors, is_7), PathResult::Pending));
    let (path, _) = found(a.advance(10, dist_to_7, line_neighbors, is_7));
    assert_eq!(path.len(), 8);
}

#[test]
fn cost_ceiling_gives_exhausted() {
    let mut a = search(100).with_max_cost(3);
    match a.advance(100, dist_to_7, line_neighbors, is_7) {
        PathResult::Exhausted(p) => assert_eq!(p.nodes(), &vec![0, 1]),
        _ => panic!("expected exhaustion"),
    }
}

#[test]
fn disconnected_goal_gives_no_path() {
    let pair = |n: u64| -> Vec<(u64, u64)> {
        match n {
            0 => vec![(1, 4)],
            1 => vec![(0, 4)],
            _ => vec![],
        }
    };
    let mut a = search(100);
    match a.advance(100, |n: u64| 9 - n, pair, |n: u64| n == 5) {
        PathResult::NoPath(p) => assert_eq!(p.nodes(), &vec![0, 1]),
        _ => panic!("expected no path"),
    }
}

#[test]
fn isolated_start_gives_empty_no_path() {
    let mut a = search(100);
    match a.advance(100, |_n: u64| 1, |_n: u64| Vec::new(), |_n: u64| false) {
        PathResult::NoPath(p) => assert!(p.is_empty()),
        _ => panic!("expected no path"),
    }
}

#[test]
fn start_that_is_a_goal_is_found_at_cost_zero() {
    let mut a = Astar::new(10, 4, DefaultHashBuilder::default());
    let (path, cost) = found(a.advance(10, dist_to_7, line_neighbors, |n: u64| n == 4));
    assert_eq!(path, vec![4]);
    assert_eq!(cost, 0);
}

fn grid_neighbors(n: u64) -> Vec<(u64, u64)> {
    // a 4 x 4 grid, node = 4 * row + col; moving right costs 1 + row,
    // moving down costs 2
    let (row, col) = (n / 4, n % 4);
    let mut v = Vec::new();
    if col < 3 {
        v.push((n + 1, 1 + row));
    }
    if col > 0 {
        v.push((n - 1, 1 + row));
    }
    if row < 3 {
        v.push((n + 4, 2));
    }
    if row > 0 {
        v.push((n - 4, 2));
    }
    v
}

fn grid_h(n: u64) -> u64 {
    // goal is node 15 (row 3, col 3): at least one per column and two per row
    let (row, col) = (n / 4, n % 4);
    (3 - col) + 2 * (3 - row)
}

fn brute_force_cheapest(start: u64, goal: u64) -> u64 {
    let mut best = vec![u64::MAX; 16];
    best[start as usize] = 0;
    for _ in 0..16 {
        for n in 0..16u64 {
            if best[n as usize] == u64::MAX {
                continue;
            }
            for (m, c) in grid_neighbors(n) {
                let d = best[n as usize] + c;
                if d < best[m as usize] {
                    best[m as usize] = d;
                }
            }
        }
    }
    best[goal as usize]
}

#[test]
fn grid_cost_matches_brute_force_and_path_sum() {
    let mut a = search(1000);
    let (path, cost) = found(a.advance(1000, grid_h, grid_neighbors, |n: u64| n == 15));
    assert_eq!(cost, brute_force_cheapest(0, 15));
    assert_eq!(path[0], 0);
    assert_eq!(*path.last().unwrap(), 15);
    let mut sum = 0;
    for w in path.windows(2) {
        let edge = grid_neighbors(w[0]).into_iter().find(|&(m, _)| m == w[1]).unwrap();
        sum += edge.1;
    }
    assert_eq!(sum, cost);
}

#[test]
fn repeated_runs_give_identical_results() {
    let run = || {
        let mut a = search(1000);
        let mut out = Vec::new();
        loop {
            match a.advance(3, grid_h, grid_neighbors, |n: u64| n == 15) {
                PathResult::Pending => out.push(None),
                PathResult::Found(p, c) => {
                    out.push(Some((p.nodes().clone(), c)));
                    break;
                }
                _ => panic!("expected a found path"),
            }
        }
        out
    };
    assert_eq!(run(), run());
}

#[test]
fn late_improvement_leaves_recorded_cost_above_path_sum() {
    // node 1 is first reached at cost 20 and later at cost 2; node 3 is
    // expanded at cost 10 before the cheaper way to it through 1 is seen
    let g = |n: u64| -> Vec<(u64, u64)> {
        match n {
            0 => vec![(1, 20), (2, 1), (3, 10)],
            2 => vec![(1, 1)],
            1 => vec![(3, 1)],
            3 => vec![(4, 100)],
            _ => vec![],
        }
    };
    let mut a = search(100);
    let (path, cost) = found(a.advance(100, |_n: u64| 0, g, |n: u64| n == 4));
    assert_eq!(path, vec![0, 2, 1, 3, 4]);
    assert_eq!(cost, 110);
}

#[test]
fn into_path_only_for_found() {
    let mut a = search(100);
    let r = a.advance(100, dist_to_7, line_neighbors, is_7);
    let (p, c) = r.into_path().unwrap();
    assert_eq!(p.len(), 8);
    assert_eq!(c, 7);
    assert!(PathResult::Pending.into_path().is_none());
    assert!(PathResult::Exhausted(Path::empty()).into_path().is_none());
    assert!(PathResult::NoPath(Path::from_nodes(vec![0, 1])).into_path().is_none());
}

#[test]
fn map_applies_to_the_carried_path() {
    let rev = |p: Path| {
        let mut v = p.nodes().clone();
        v.reverse();
        Path::from_nodes(v)
    };
    match PathResult::Found(Path::from_nodes(vec![1, 2, 3]), 9).map(rev) {
        PathResult::Found(p, c) => {
            assert_eq!(p.nodes(), &vec![3, 2, 1]);
            assert_eq!(c, 9);
        }
        _ => panic!("expected a found path"),
    }
    match PathResult::NoPath(Path::from_nodes(vec![4, 5])).map(rev) {
        PathResult::NoPath(p) => assert_eq!(p.nodes(), &vec![5, 4]),
        _ => panic!("expected no path"),
    }
    assert!(matches!(PathResult::Pending.map(rev), PathResult::Pending));
}
