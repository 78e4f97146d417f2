//! A* pathfinding over the 8-connected walkability grid.
//!
//! The open set is a vector popped at its minimal f-score entry (ties in
//! implementation-defined order); per-cell g-scores and back-links live
//! in association maps. Edge cost is uniform: one per step, diagonal or
//! orthogonal. The heuristic is the octile-style estimate
//! `(dx + dy) + 414 * min(dx, dy)`, with 414 standing for a
//! thousandth-scaled diagonal surcharge.
//!
//! Every path handed back is proved valid: it starts at `start`, ends at
//! `goal`, and each step is one of the eight neighbor moves onto a
//! walkable cell that does not cut a blocked corner.

use vstd::prelude::*;

verus! {

use crate::grid::Grid;
use crate::grid::adjacent8;
use crate::grid::step_ok;
use crate::grid::walkable;
use crate::cellmap::CellMap;
use vstd::math::abs;

/// An entry of the open set: a cell, its f-score priority and the
/// g-score it was pushed with.
#[derive(Clone, Copy)]
pub struct PathNode {
    pub position: (i32, i32),
    pub f_score: i64,
    pub g_score: i64,
}

/// `p` is a path from `start` to `goal`: nonempty, with every move a
/// legal step of the grid (8-adjacent, onto a walkable cell, no corner
/// cut). The first cell is where the walker already stands, so it is
/// not itself required to be walkable.
pub open spec fn valid_path(
    blocked: Set<(i32, i32)>,
    p: Seq<(i32, i32)>,
    start: (i32, i32),
    goal: (i32, i32),
) -> bool {
    &&& p.len() >= 1
    &&& p[0] == start
    &&& p[p.len() - 1] == goal
    &&& forall|i: int| 0 <= i < p.len() - 1 ==> step_ok(blocked, p[i], #[trigger] p[i + 1])
}

/// Chebyshev distance: the number of 8-connected king moves between two
/// cells.
pub open spec fn chebyshev(a: (i32, i32), b: (i32, i32)) -> int {
    vstd::math::max(abs(a.0 - b.0) as int, abs(a.1 - b.1) as int)
}

/// The search heuristic: `(dx + dy) + 414 * min(dx, dy)`.
pub open spec fn heuristic_spec(a: (i32, i32), b: (i32, i32)) -> int {
    let dx = abs(a.0 - b.0) as int;
    let dy = abs(a.1 - b.1) as int;
    (dx + dy) + 414 * vstd::math::min(dx, dy)
}

/// Removes and returns an entry with minimal f-score.
fn pop_min(open: &mut Vec<PathNode>) -> (r: PathNode)
    requires
        old(open)@.len() > 0,
    ensures
        old(open)@.contains(r),
        final(open)@.len() == old(open)@.len() - 1,
        forall|j: int| 0 <= j < final(open)@.len() ==> old(open)@.contains(#[trigger] final(open)@[j]),
        forall|j: int| 0 <= j < old(open)@.len() ==> r.f_score <= (#[trigger] old(open)@[j]).f_score,
{
    let mut best: usize = 0;
    let mut i: usize = 1;
    while i < open.len()
        invariant
            open@ == old(open)@,
            open@.len() > 0,
            best < i,
            i <= open@.len(),
            forall|j: int| 0 <= j < i ==> open@[best as int].f_score <= (#[trigger] open@[j]).f_score,
        decreases open@.len() - i,
    {
        if open[i].f_score < open[best].f_score {
            best = i;
        }
        i = i + 1;
    }
    let r = open.remove(best);
    proof {
        old(open)@.remove_ensures(best as int);
        assert(old(open)@[best as int] == r);
        assert(old(open)@.contains(r));
        assert forall|j: int|
            0 <= j < open@.len() implies old(open)@.contains(#[trigger] open@[j]) by {
            if j < best as int {
                assert(open@[j] == old(open)@[j]);
            } else {
                assert(open@[j] == old(open)@[j + 1]);
            }
        }
    }
    r
}

impl Grid {
    /// The octile-style search heuristic between two cells.
    fn heuristic(&self, a: (i32, i32), b: (i32, i32)) -> (h: i64)
        ensures
            h == heuristic_spec(a, b),
            0 <= h <= 3_000_000_000_000,
    {
        let dx = if a.0 >= b.0 {
            a.0 as i64 - b.0 as i64
        } else {
            b.0 as i64 - a.0 as i64
        };
        let dy = if a.1 >= b.1 {
            a.1 as i64 - b.1 as i64
        } else {
            b.1 as i64 - a.1 as i64
        };
        let m = if dx < dy {
            dx
        } else {
            dy
        };
        (dx + dy) + 414 * m
    }
}

/// Cells of a chain with strictly decreasing g-scores are pairwise
/// distinct.
proof fn lemma_strict_descent_separates(
    s: Seq<(i32, i32)>,
    gm: Map<(i32, i32), i64>,
    i: int,
    j: int,
)
    requires
        0 <= i < j < s.len(),
        forall|k: int| 0 <= k < s.len() ==> gm.contains_key(#[trigger] s[k]),
        forall|k: int| 0 <= k < s.len() - 1 ==> gm[s[k + 1]] < gm[#[trigger] s[k]],
    ensures
        gm[s[j]] < gm[s[i]],
        s[i] != s[j],
    decreases j - i,
{
    if j == i + 1 {
        assert(gm[s[i + 1]] < gm[s[i]]);
    } else {
        lemma_strict_descent_separates(s, gm, i + 1, j);
        assert(gm[s[i + 1]] < gm[s[i]]);
    }
}

/// Follows the back-links from `goal` to the start cell and returns the
/// cells in walking order. The link structure is acyclic because every
/// link strictly decreases the g-score.
fn reconstruct_path(
    came_from: &CellMap<(i32, i32)>,
    g_score: &CellMap<i64>,
    goal: (i32, i32),
    Ghost(blocked): Ghost<Set<(i32, i32)>>,
    Ghost(start): Ghost<(i32, i32)>,
) -> (p: Vec<(i32, i32)>)
    requires
        came_from.wf(),
        g_score.wf(),
        g_score@.contains_key(goal),
        g_score@.contains_key(start),
        g_score@[start] == 0,
        forall|k: (i32, i32)| #[trigger] g_score@.contains_key(k) ==> g_score@[k] >= 0,
        forall|k: (i32, i32)| #[trigger]
            came_from@.contains_key(k) ==> g_score@.contains_key(k) && g_score@.contains_key(
                came_from@[k],
            ) && g_score@[came_from@[k]] < g_score@[k] && step_ok(blocked, came_from@[k], k),
        forall|k: (i32, i32)| #[trigger]
            g_score@.contains_key(k) ==> k == start || came_from@.contains_key(k),
    ensures
        valid_path(blocked, p@, start, goal),
        p@.no_duplicates(),
        start == goal ==> p@ =~= seq![start],
{
    let mut rev: Vec<(i32, i32)> = Vec::new();
    rev.push(goal);
    let mut current = goal;
    loop
        invariant
            came_from.wf(),
            g_score.wf(),
            g_score@.contains_key(current),
            g_score@.contains_key(start),
            g_score@[start] == 0,
            forall|k: (i32, i32)| #[trigger] g_score@.contains_key(k) ==> g_score@[k] >= 0,
            forall|k: (i32, i32)| #[trigger]
                came_from@.contains_key(k) ==> g_score@.contains_key(k) && g_score@.contains_key(
                    came_from@[k],
                ) && g_score@[came_from@[k]] < g_score@[k] && step_ok(blocked, came_from@[k], k),
            forall|k: (i32, i32)| #[trigger]
                g_score@.contains_key(k) ==> k == start || came_from@.contains_key(k),
            rev@.len() >= 1,
            rev@[0] == goal,
            rev@[rev@.len() - 1] == current,
            forall|i: int| 0 <= i < rev@.len() - 1 ==> step_ok(blocked, rev@[i + 1], #[trigger] rev@[i]),
            forall|i: int| 0 <= i < rev@.len() ==> g_score@.contains_key(#[trigger] rev@[i]),
            forall|i: int|
                0 <= i < rev@.len() - 1 ==> g_score@[rev@[i + 1]] < g_score@[#[trigger] rev@[i]],
            start == goal ==> rev@ =~= seq![goal],
        ensures
            !came_from@.contains_key(current),
            g_score@.contains_key(current),
            rev@.len() >= 1,
            rev@[0] == goal,
            rev@[rev@.len() - 1] == current,
            forall|i: int| 0 <= i < rev@.len() - 1 ==> step_ok(blocked, rev@[i + 1], #[trigger] rev@[i]),
            forall|i: int| 0 <= i < rev@.len() ==> g_score@.contains_key(#[trigger] rev@[i]),
            forall|i: int|
                0 <= i < rev@.len() - 1 ==> g_score@[rev@[i + 1]] < g_score@[#[trigger] rev@[i]],
            start == goal ==> rev@ =~= seq![goal],
        decreases g_score@[current],
    {
        match came_from.get(current) {
            Some(prev) => {
                proof {
                    if start == goal {
                        assert(current == start);
                        assert(g_score@[came_from@[current]] < 0);
                        assert(false);
                    }
                }
                rev.push(prev);
                current = prev;
            },
            None => {
                break ;
            },
        }
    }
    proof {
        assert(current == start);
    }
    let n = rev.len();
    let mut p: Vec<(i32, i32)> = Vec::new();
    let mut i: usize = n;
    while i > 0
        invariant
            i <= n,
            n == rev@.len(),
            p@.len() == n - i,
            forall|j: int| 0 <= j < p@.len() ==> #[trigger] p@[j] == rev@[n - 1 - j],
        decreases i,
    {
        i = i - 1;
        let c = rev[i];
        p.push(c);
    }
    proof {
        assert(p@.len() == rev@.len());
        assert(p@[0] == rev@[n - 1]);
        assert(p@[p@.len() - 1] == rev@[0]);
        assert forall|k: int|
            0 <= k < p@.len() - 1 implies step_ok(blocked, p@[k], #[trigger] p@[k + 1]) by {
            assert(p@[k] == rev@[n - 1 - k]);
            assert(p@[k + 1] == rev@[n - 2 - k]);
            assert(step_ok(blocked, rev@[n - 2 - k + 1], rev@[n - 2 - k]));
        }
        assert(valid_path(blocked, p@, start, goal));
        assert forall|k1: int, k2: int|
            0 <= k1 < k2 < rev@.len() implies rev@[k1] != rev@[k2] by {
            lemma_strict_descent_separates(rev@, g_score@, k1, k2);
        }
        assert forall|k1: int, k2: int|
            0 <= k1 < k2 < p@.len() implies p@[k1] != p@[k2] by {
            assert(p@[k1] == rev@[n - 1 - k1]);
            assert(p@[k2] == rev@[n - 1 - k2]);
            assert(rev@[n - 1 - k2] != rev@[n - 1 - k1]);
        }
        assert(p@.no_duplicates());
        if start == goal {
            assert(rev@ =~= seq![goal]);
            assert(p@ =~= seq![start]);
        }
    }
    p
}

impl Grid {
    /// A* search from `start` to `goal` over the current obstacle set.
    ///
    /// Any returned path is a valid walk: it begins at `start`, ends at
    /// `goal`, and every move steps to a walkable 8-neighbor without
    /// cutting a blocked corner. When start and goal coincide the result
    /// is the single-cell path. `None` means the search exhausted its
    /// frontier (or its step budget) without reaching the goal.
    pub fn pathfind(&self, start: (i32, i32), goal: (i32, i32)) -> (r: Option<Vec<(i32, i32)>>)
        ensures
            r matches Some(p) ==> valid_path(self@, p@, start, goal),
            r matches Some(p) ==> p@.no_duplicates(),
            start == goal ==> (r matches Some(p) && p@ =~= seq![start]),
    {
        let mut open: Vec<PathNode> = Vec::new();
        let mut came_from: CellMap<(i32, i32)> = CellMap::new();
        let mut g_score: CellMap<i64> = CellMap::new();
        g_score.insert(start, 0);
        let h0 = self.heuristic(start, goal);
        open.push(PathNode { position: start, f_score: h0, g_score: 0 });
        let mut fuel: u64 = 100_000_000;
        loop
            invariant
                came_from.wf(),
                g_score.wf(),
                g_score@.contains_key(start),
                g_score@[start] == 0,
                forall|k: (i32, i32)| #[trigger]
                    g_score@.contains_key(k) ==> 0 <= g_score@[k] <= 1_000_000_000_000,
                forall|k: (i32, i32)| #[trigger]
                    came_from@.contains_key(k) ==> g_score@.contains_key(k)
                        && g_score@.contains_key(came_from@[k]) && g_score@[came_from@[k]]
                        < g_score@[k] && step_ok(self@, came_from@[k], k),
                forall|k: (i32, i32)| #[trigger]
                    g_score@.contains_key(k) ==> k == start || came_from@.contains_key(k),
                forall|j: int|
                    0 <= j < open@.len() ==> g_score@.contains_key(
                        (#[trigger] open@[j]).position,
                    ),
                start == goal ==> open@.len() == 1 && open@[0].position == start && fuel > 0,
            ensures
                start != goal,
            decreases fuel,
        {
            if fuel == 0 {
                break ;
            }
            if open.len() == 0 {
                break ;
            }
            fuel = fuel - 1;
            let current = pop_min(&mut open);
            if current.position.0 == goal.0 && current.position.1 == goal.1 {
                proof {
                    assert(current.position == goal);
                }
                let p = reconstruct_path(
                    &came_from,
                    &g_score,
                    current.position,
                    Ghost(self@),
                    Ghost(start),
                );
                return Some(p);
            }
            let neighbors = self.get_neighbors(current.position);
            let g_cur = match g_score.get(current.position) {
                Some(g) => g,
                None => {
                    proof {
                        assert(false);
                    }
                    0
                },
            };
            let tentative = g_cur + 1;
            let mut idx: usize = 0;
            while idx < neighbors.len()
                invariant
                    came_from.wf(),
                    g_score.wf(),
                    g_score@.contains_key(start),
                    g_score@[start] == 0,
                    g_score@.contains_key(current.position),
                    g_score@[current.position] == g_cur,
                    0 <= g_cur <= 1_000_000_000_000,
                    tentative == g_cur + 1,
                    start != goal,
                    current.position != goal,
                    forall|c: (i32, i32)| neighbors@.contains(c) <==> step_ok(
                        self@,
                        current.position,
                        c,
                    ),
                    forall|k: (i32, i32)| #[trigger]
                        g_score@.contains_key(k) ==> 0 <= g_score@[k] <= 1_000_000_000_000,
                    forall|k: (i32, i32)| #[trigger]
                        came_from@.contains_key(k) ==> g_score@.contains_key(k)
                            && g_score@.contains_key(came_from@[k]) && g_score@[came_from@[k]]
                            < g_score@[k] && step_ok(self@, came_from@[k], k),
                    forall|k: (i32, i32)| #[trigger]
                        g_score@.contains_key(k) ==> k == start || came_from@.contains_key(k),
                    forall|j: int|
                        0 <= j < open@.len() ==> g_score@.contains_key(
                            (#[trigger] open@[j]).position,
                        ),
                decreases neighbors@.len() - idx,
            {
                let nb = neighbors[idx];
                proof {
                    assert(neighbors@.contains(nb));
                    assert(step_ok(self@, current.position, nb));
                    assert(nb != current.position);
                }
                let better = match g_score.get(nb) {
                    Some(go) => tentative < go,
                    None => true,
                };
                if better && tentative <= 1_000_000_000_000 {
                    proof {
                        if nb == start {
                            assert(g_score@[start] == 0);
                            assert(false);
                        }
                    }
                    let ghost old_g = g_score@;
                    let ghost old_cf = came_from@;
                    came_from.insert(nb, current.position);
                    g_score.insert(nb, tentative);
                    let h = self.heuristic(nb, goal);
                    open.push(PathNode { position: nb, f_score: tentative + h, g_score: tentative });
                    proof {
                        assert forall|k: (i32, i32)| #[trigger]
                            came_from@.contains_key(k) implies g_score@.contains_key(k)
                            && g_score@.contains_key(came_from@[k]) && g_score@[came_from@[k]]
                            < g_score@[k] && step_ok(self@, came_from@[k], k) by {
                            if k == nb {
                                assert(came_from@[nb] == current.position);
                                assert(g_score@[current.position] == g_cur);
                            } else {
                                assert(old_cf.contains_key(k));
                                assert(came_from@[k] == old_cf[k]);
                                assert(old_g.contains_key(old_cf[k]));
                                if old_cf[k] == nb {
                                    assert(g_score@[nb] == tentative);
                                    assert(match old_g.contains_key(nb) {
                                        true => tentative < old_g[nb],
                                        false => true,
                                    });
                                }
                            }
                        }
                    }
                }
                idx = idx + 1;
            }
        }
        proof {
            assert(start != goal);
        }
        None
    }
}

/// Any valid path must contain more cells than the Chebyshev distance
/// between its endpoints: every step moves at most one cell on each
/// axis, so a straight clear corridor cannot be walked in fewer moves.
pub proof fn lemma_path_at_least_chebyshev(
    blocked: Set<(i32, i32)>,
    p: Seq<(i32, i32)>,
    start: (i32, i32),
    goal: (i32, i32),
)
    requires
        valid_path(blocked, p, start, goal),
    ensures
        p.len() > chebyshev(start, goal),
    decreases p.len(),
{
    if p.len() == 1 {
        assert(start == goal);
    } else {
        let q = p.subrange(1, p.len() as int);
        assert(valid_path(blocked, q, p[1], goal)) by {
            assert(q[q.len() - 1] == p[p.len() - 1]);
            assert forall|i: int|
                0 <= i < q.len() - 1 implies step_ok(blocked, q[i], #[trigger] q[i + 1]) by {
                assert(q[i] == p[i + 1]);
                assert(q[i + 1] == p[i + 2]);
                assert(step_ok(blocked, p[i + 1], p[i + 1 + 1]));
            }
        }
        lemma_path_at_least_chebyshev(blocked, q, p[1], goal);
        assert(step_ok(blocked, p[0int], p[0int + 1]));
        assert(adjacent8(start, p[1]));
        assert(chebyshev(start, goal) <= chebyshev(p[1], goal) + 1);
    }
}

/// A goal whose eight neighbors are all unwalkable cannot be reached
/// from anywhere else: no valid path from a walkable start ends at it.
pub proof fn lemma_enclosed_goal_has_no_path(
    blocked: Set<(i32, i32)>,
    p: Seq<(i32, i32)>,
    start: (i32, i32),
    goal: (i32, i32),
)
    requires
        start != goal,
        walkable(blocked, start),
        forall|c: (i32, i32)| #[trigger] adjacent8(c, goal) ==> !walkable(blocked, c),
    ensures
        !valid_path(blocked, p, start, goal),
{
    if valid_path(blocked, p, start, goal) {
        let n = p.len() as int;
        assert(n >= 2);
        let prev = p[n - 2];
        assert(step_ok(blocked, p[n - 2], p[n - 2 + 1]));
        assert(adjacent8(prev, goal));
        if n == 2 {
            assert(prev == start);
        } else {
            assert(step_ok(blocked, p[n - 3], p[n - 3 + 1]));
            assert(walkable(blocked, prev));
        }
        assert(walkable(blocked, prev));
        assert(!walkable(blocked, prev));
    }
}


/// Corollary at the search's result level: since every returned path
/// is valid, a search toward a goal whose eight neighbors are all
/// unwalkable can only answer `None`.
pub proof fn lemma_enclosed_goal_forces_none(
    blocked: Set<(i32, i32)>,
    r: Option<Vec<(i32, i32)>>,
    start: (i32, i32),
    goal: (i32, i32),
)
    requires
        start != goal,
        walkable(blocked, start),
        forall|c: (i32, i32)| #[trigger] adjacent8(c, goal) ==> !walkable(blocked, c),
        r matches Some(p) ==> valid_path(blocked, p@, start, goal),
    ensures
        r is None,
{
    match r {
        Some(p) => {
            lemma_enclosed_goal_has_no_path(blocked, p@, start, goal);
        },
        None => {},
    }
}

} // verus!
