//! Bounded nearest-cell searches: snapping arbitrary targets (clicked
//! points, spawn centers, transition zones) onto walkable cells.
//!
//! All searches scan a bounded cell box in a fixed order (column by
//! column, and downward inside a column), keep the first minimum, and
//! are pure readers of the obstacle state.

use vstd::prelude::*;

verus! {

use crate::fixed::dist2_i128;
use crate::grid::Grid;
use crate::grid::walkable;
use crate::grid::world_from_cell;
use crate::grid::cell_from_world;

/// `c` lies in the inclusive cell box spanned by `lo` and `hi`.
pub open spec fn in_cell_box(lo: (int, int), hi: (int, int), c: (i32, i32)) -> bool {
    &&& lo.0 <= c.0 <= hi.0
    &&& lo.1 <= c.1 <= hi.1
}

/// Squared world-space distance (milli-pixels) between the center of
/// cell `c` and the world point `p`.
pub open spec fn wdist2(c: (i32, i32), p: (int, int)) -> int {
    let w = world_from_cell(c.0 as int, c.1 as int);
    (w.0 - p.0) * (w.0 - p.0) + (w.1 - p.1) * (w.1 - p.1)
}

/// Squared grid distance between two cells.
pub open spec fn gdist2(a: (i32, i32), b: (i32, i32)) -> int {
    (a.0 - b.0) * (a.0 - b.0) + (a.1 - b.1) * (a.1 - b.1)
}

/// Squared grid distance between a cell and a mathematical cell index.
pub open spec fn gdist2i(a: (i32, i32), t: (int, int)) -> int {
    (a.0 - t.0) * (a.0 - t.0) + (a.1 - t.1) * (a.1 - t.1)
}

/// `a` is scanned before `b`: columns left to right, then top to
/// bottom inside a column. Distance ties go to the earlier cell.
pub open spec fn scan_before(a: (i32, i32), b: (i32, i32)) -> bool {
    a.0 < b.0 || (a.0 == b.0 && a.1 < b.1)
}

/// The entries of `s` are in strict scan order.
pub open spec fn scan_ordered(s: Seq<((i32, i32), i64)>) -> bool {
    forall|k1: int, k2: int|
        0 <= k1 < k2 < s.len() ==> scan_before((#[trigger] s[k1]).0, (#[trigger] s[k2]).0)
}

/// The entries of `s` ascend by key, with ties in scan order.
pub open spec fn lex_sorted(s: Seq<((i32, i32), i64)>) -> bool {
    forall|k1: int, k2: int|
        0 <= k1 < k2 < s.len() ==> ((#[trigger] s[k1]).1 < (#[trigger] s[k2]).1 || (s[k1].1
            == s[k2].1 && scan_before(s[k1].0, s[k2].0)))
}

/// Every one of the first `i` entries of `cand` appears in `s`.
pub open spec fn holds_prefix(
    s: Seq<((i32, i32), i64)>,
    cand: Seq<((i32, i32), i64)>,
    i: int,
) -> bool {
    forall|j: int| 0 <= j < i ==> s.contains(#[trigger] cand[j])
}

/// Every entry of `s` is one of the first `i` entries of `cand`.
pub open spec fn from_prefix(
    s: Seq<((i32, i32), i64)>,
    cand: Seq<((i32, i32), i64)>,
    i: int,
) -> bool {
    forall|k: int| 0 <= k < s.len() ==> cand.subrange(0, i).contains(#[trigger] s[k])
}


/// The full postcondition of the n-closest search around center cell
/// `t`: up to `n` walkable cells of the radius-10 box, ordered by
/// ascending squared grid distance from `t` with ties in scan order,
/// without duplicates; fewer than `n` only when those are all walkable
/// cells of the box, and no excluded walkable cell is nearer than a
/// returned one.
pub open spec fn n_closest_post(
    blocked: Set<(i32, i32)>,
    t: (int, int),
    n: int,
    v: Seq<(i32, i32)>,
) -> bool {
    let lo = (t.0 - 10, t.1 - 10);
    let hi = (t.0 + 10, t.1 + 10);
    &&& v.len() <= n
    &&& (n >= 1 ==> v.len() >= 1)
    &&& forall|k: int|
        0 <= k < v.len() ==> in_cell_box(lo, hi, #[trigger] v[k]) && walkable(blocked, v[k])
    &&& forall|k1: int, k2: int|
        0 <= k1 < k2 < v.len() ==> (gdist2i(#[trigger] v[k1], t) < gdist2i(#[trigger] v[k2], t)
            || (gdist2i(v[k1], t) == gdist2i(v[k2], t) && scan_before(v[k1], v[k2])))
    &&& (v.len() < n ==> forall|c: (i32, i32)| #![trigger in_cell_box(lo, hi, c)]
        in_cell_box(lo, hi, c) && walkable(blocked, c) ==> v.contains(c))
    &&& forall|c: (i32, i32), k: int|
        #![trigger in_cell_box(lo, hi, c), v[k]]
        in_cell_box(lo, hi, c) && walkable(blocked, c) && !v.contains(c) && 0 <= k < v.len() ==> (
        gdist2i(v[k], t) < gdist2i(c, t) || (gdist2i(v[k], t) == gdist2i(c, t) && scan_before(
            v[k],
            c,
        )))
}

/// No cell of the box is walkable.
pub open spec fn no_walkable_in_box(
    blocked: Set<(i32, i32)>,
    lo: (int, int),
    hi: (int, int),
) -> bool {
    forall|w: (i32, i32)| #![trigger in_cell_box(lo, hi, w)]
        in_cell_box(lo, hi, w) ==> !walkable(blocked, w)
}

/// `c` is the walkable cell of the box whose center lies nearest (in
/// squared world distance) to the world point `p`, the first in scan
/// order among equally near ones.
pub open spec fn world_closest_in_box(
    blocked: Set<(i32, i32)>,
    lo: (int, int),
    hi: (int, int),
    p: (int, int),
    c: (i32, i32),
) -> bool {
    &&& in_cell_box(lo, hi, c)
    &&& walkable(blocked, c)
    &&& forall|w: (i32, i32)| #![trigger in_cell_box(lo, hi, w)]
        in_cell_box(lo, hi, w) && walkable(blocked, w) && w != c ==> (wdist2(c, p) < wdist2(w, p)
            || (wdist2(c, p) == wdist2(w, p) && scan_before(c, w)))
}

/// `c` is the walkable cell of the box nearest (in squared grid
/// distance) to the cell `t`, the first in scan order among equally
/// near ones.
pub open spec fn grid_closest_in_box(
    blocked: Set<(i32, i32)>,
    lo: (int, int),
    hi: (int, int),
    t: (i32, i32),
    c: (i32, i32),
) -> bool {
    &&& in_cell_box(lo, hi, c)
    &&& walkable(blocked, c)
    &&& forall|w: (i32, i32)| #![trigger in_cell_box(lo, hi, w)]
        in_cell_box(lo, hi, w) && walkable(blocked, w) && w != c ==> (gdist2(c, t) < gdist2(w, t)
            || (gdist2(c, t) == gdist2(w, t) && scan_before(c, w)))
}

impl Grid {
    /// The walkable cell within Chebyshev radius 5 of the cell under
    /// `target_pos` whose center lies nearest (in world space) to
    /// `target_pos`; `None` exactly when no cell of that neighborhood
    /// is walkable.
    pub fn find_closest_accessible_position(&self, target_pos: (i64, i64)) -> (r: Option<
        (i32, i32),
    >)
        requires
            -100_000_000_000 <= target_pos.0 <= 100_000_000_000,
            -100_000_000_000 <= target_pos.1 <= 100_000_000_000,
        ensures
            ({
                let center = cell_from_world(target_pos.0 as int, target_pos.1 as int);
                let lo = (center.0 - 5, center.1 - 5);
                let hi = (center.0 + 5, center.1 + 5);
                let p = (target_pos.0 as int, target_pos.1 as int);
                match r {
                    Some(c) => world_closest_in_box(self@, lo, hi, p, c),
                    None => no_walkable_in_box(self@, lo, hi),
                }
            }),
    {
        let center = self.get_grid_from_coord(target_pos);
        let ghost lo = ((center.0 - 5) as int, (center.1 - 5) as int);
        let ghost hi = ((center.0 + 5) as int, (center.1 + 5) as int);
        let ghost p = (target_pos.0 as int, target_pos.1 as int);
        let mut best: Option<(i32, i32)> = None;
        let mut best_d2: i128 = 0;
        let mut dx: i32 = -5;
        while dx <= 5
            invariant
                -5 <= dx <= 6,
                -3_000_000 <= center.0 <= 3_000_000,
                -3_000_000 <= center.1 <= 3_000_000,
                -100_000_000_000 <= target_pos.0 <= 100_000_000_000,
                -100_000_000_000 <= target_pos.1 <= 100_000_000_000,
                lo == ((center.0 - 5) as int, (center.1 - 5) as int),
                hi == ((center.0 + 5) as int, (center.1 + 5) as int),
                p == (target_pos.0 as int, target_pos.1 as int),
                match best {
                    None => forall|w: (i32, i32)| #![trigger in_cell_box(lo, hi, w)]
                        in_cell_box(lo, hi, w) && w.0 - center.0 < dx ==> !walkable(self@, w),
                    Some(b) => in_cell_box(lo, hi, b) && b.0 - center.0 < dx && walkable(self@, b)
                        && best_d2 == wdist2(b, p) && forall|w: (i32, i32)|
                        #![trigger in_cell_box(lo, hi, w)]
                        in_cell_box(lo, hi, w) && w.0 - center.0 < dx && walkable(self@, w) && w
                            != b ==> (wdist2(b, p) < wdist2(w, p) || (wdist2(b, p) == wdist2(w, p)
                            && scan_before(b, w))),
                },
            decreases 6 - dx,
        {
            let mut dy: i32 = -5;
            while dy <= 5
                invariant
                    -5 <= dx <= 5,
                    -5 <= dy <= 6,
                    -3_000_000 <= center.0 <= 3_000_000,
                    -3_000_000 <= center.1 <= 3_000_000,
                    -100_000_000_000 <= target_pos.0 <= 100_000_000_000,
                    -100_000_000_000 <= target_pos.1 <= 100_000_000_000,
                    lo == ((center.0 - 5) as int, (center.1 - 5) as int),
                    hi == ((center.0 + 5) as int, (center.1 + 5) as int),
                    p == (target_pos.0 as int, target_pos.1 as int),
                    match best {
                        None => forall|w: (i32, i32)| #![trigger in_cell_box(lo, hi, w)]
                            in_cell_box(lo, hi, w) && (w.0 - center.0 < dx || (w.0 - center.0 == dx
                                && w.1 - center.1 < dy)) ==> !walkable(self@, w),
                        Some(b) => in_cell_box(lo, hi, b) && (b.0 - center.0 < dx || (b.0
                            - center.0 == dx && b.1 - center.1 < dy)) && walkable(self@, b)
                            && best_d2 == wdist2(b, p) && forall|w: (i32, i32)|
                            #![trigger in_cell_box(lo, hi, w)]
                            in_cell_box(lo, hi, w) && (w.0 - center.0 < dx || (w.0 - center.0 == dx
                                && w.1 - center.1 < dy)) && walkable(self@, w) && w != b ==> (
                            wdist2(b, p) < wdist2(w, p) || (wdist2(b, p) == wdist2(w, p)
                                && scan_before(b, w))),
                    },
                decreases 6 - dy,
            {
                let c = (center.0 + dx, center.1 + dy);
                if self.is_node_walkable(c) {
                    let w = self.get_coord_from_grid(c.0, c.1);
                    let d2 = dist2_i128(
                        w.0 as i128 - target_pos.0 as i128,
                        w.1 as i128 - target_pos.1 as i128,
                    );
                    proof {
                        assert(d2 == wdist2(c, p));
                    }
                    let take = match best {
                        None => true,
                        Some(_) => d2 < best_d2,
                    };
                    if take {
                        best = Some(c);
                        best_d2 = d2;
                    }
                }
                dy = dy + 1;
            }
            dx = dx + 1;
        }
        best
    }

    /// The walkable cell of the cell box spanned by the world-space
    /// rectangle corners `rect_lo` and `rect_hi` that lies nearest (in
    /// squared grid distance) to `target`; `None` exactly when the box
    /// holds no walkable cell. Used to resolve a click on a transition
    /// zone to a walkable cell inside that zone.
    pub fn find_closest_walkable_node(
        &self,
        target: (i32, i32),
        rect_lo: (i64, i64),
        rect_hi: (i64, i64),
    ) -> (r: Option<(i32, i32)>)
        requires
            -100_000_000_000 <= rect_lo.0 <= 100_000_000_000,
            -100_000_000_000 <= rect_lo.1 <= 100_000_000_000,
            -100_000_000_000 <= rect_hi.0 <= 100_000_000_000,
            -100_000_000_000 <= rect_hi.1 <= 100_000_000_000,
        ensures
            ({
                let lo = cell_from_world(rect_lo.0 as int, rect_lo.1 as int);
                let hi = cell_from_world(rect_hi.0 as int, rect_hi.1 as int);
                match r {
                    Some(c) => grid_closest_in_box(self@, lo, hi, target, c),
                    None => no_walkable_in_box(self@, lo, hi),
                }
            }),
    {
        let start = self.get_grid_from_coord(rect_lo);
        let end = self.get_grid_from_coord(rect_hi);
        let ghost lo = (start.0 as int, start.1 as int);
        let ghost hi = (end.0 as int, end.1 as int);
        let mut best: Option<(i32, i32)> = None;
        let mut best_d2: i128 = 0;
        let mut x = start.0;
        while x <= end.0
            invariant
                start.0 <= x,
                x <= end.0 + 1 || x == start.0,
                -3_000_000 <= start.0 <= 3_000_000,
                -3_000_000 <= start.1 <= 3_000_000,
                -3_000_000 <= end.0 <= 3_000_000,
                -3_000_000 <= end.1 <= 3_000_000,
                lo == (start.0 as int, start.1 as int),
                hi == (end.0 as int, end.1 as int),
                match best {
                    None => forall|w: (i32, i32)| #![trigger in_cell_box(lo, hi, w)]
                        in_cell_box(lo, hi, w) && w.0 < x ==> !walkable(self@, w),
                    Some(b) => in_cell_box(lo, hi, b) && b.0 < x && walkable(self@, b) && best_d2
                        == gdist2(b, target) && forall|w: (i32, i32)|
                        #![trigger in_cell_box(lo, hi, w)]
                        in_cell_box(lo, hi, w) && w.0 < x && walkable(self@, w) && w != b ==> (
                        gdist2(b, target) < gdist2(w, target) || (gdist2(b, target) == gdist2(
                            w,
                            target,
                        ) && scan_before(b, w))),
                },
            decreases end.0 - x + 1,
        {
            let mut y = start.1;
            while y <= end.1
                invariant
                    start.0 <= x <= end.0,
                    start.1 <= y,
                    y <= end.1 + 1 || y == start.1,
                    -3_000_000 <= start.0 <= 3_000_000,
                    -3_000_000 <= start.1 <= 3_000_000,
                    -3_000_000 <= end.0 <= 3_000_000,
                    -3_000_000 <= end.1 <= 3_000_000,
                    lo == (start.0 as int, start.1 as int),
                    hi == (end.0 as int, end.1 as int),
                    match best {
                        None => forall|w: (i32, i32)| #![trigger in_cell_box(lo, hi, w)]
                            in_cell_box(lo, hi, w) && (w.0 < x || (w.0 == x && w.1 < y))
                                ==> !walkable(self@, w),
                        Some(b) => in_cell_box(lo, hi, b) && (b.0 < x || (b.0 == x && b.1 < y))
                            && walkable(self@, b) && best_d2 == gdist2(b, target) && forall|
                            w: (i32, i32),
                        |
                            #![trigger in_cell_box(lo, hi, w)]
                            in_cell_box(lo, hi, w) && (w.0 < x || (w.0 == x && w.1 < y))
                                && walkable(self@, w) && w != b ==> (gdist2(b, target) < gdist2(
                                w,
                                target,
                            ) || (gdist2(b, target) == gdist2(w, target) && scan_before(b, w))),
                    },
                decreases end.1 - y + 1,
            {
                let c = (x, y);
                if self.is_node_walkable(c) {
                    let d2 = dist2_i128(
                        c.0 as i128 - target.0 as i128,
                        c.1 as i128 - target.1 as i128,
                    );
                    proof {
                        assert(d2 == gdist2(c, target));
                    }
                    let take = match best {
                        None => true,
                        Some(_) => d2 < best_d2,
                    };
                    if take {
                        best = Some(c);
                        best_d2 = d2;
                    }
                }
                y = y + 1;
            }
            x = x + 1;
        }
        best
    }
    /// Up to `n` walkable cells within Chebyshev radius 10 of the cell
    /// under `pixel_pos`, ordered by ascending squared grid distance
    /// from that cell (ties in scan order), without duplicates; `None`
    /// exactly when the neighborhood holds no walkable cell. Fewer than
    /// `n` cells come back only when those are all of them. Used to fan
    /// several actors out around one spawn point.
    #[verifier::rlimit(100)]
    pub fn find_n_closest_walkable_grids(&self, pixel_pos: (i64, i64), n: usize) -> (r: Option<
        Vec<(i32, i32)>,
    >)
        requires
            -100_000_000_000 <= pixel_pos.0 <= 100_000_000_000,
            -100_000_000_000 <= pixel_pos.1 <= 100_000_000_000,
        ensures
            ({
                let t = cell_from_world(pixel_pos.0 as int, pixel_pos.1 as int);
                match r {
                    None => no_walkable_in_box(self@, (t.0 - 10, t.1 - 10), (t.0 + 10, t.1 + 10)),
                    Some(v) => n_closest_post(self@, t, n as int, v@),
                }
            }),
    {
        let tc = self.get_grid_from_coord(pixel_pos);
        let ghost t = (tc.0 as int, tc.1 as int);
        let ghost lo = ((tc.0 - 10) as int, (tc.1 - 10) as int);
        let ghost hi = ((tc.0 + 10) as int, (tc.1 + 10) as int);
        let mut cand: Vec<((i32, i32), i64)> = Vec::new();
        let mut dx: i32 = -10;
        while dx <= 10
            invariant
                -10 <= dx <= 11,
                -3_000_000 <= tc.0 <= 3_000_000,
                -3_000_000 <= tc.1 <= 3_000_000,
                t == (tc.0 as int, tc.1 as int),
                lo == ((tc.0 - 10) as int, (tc.1 - 10) as int),
                hi == ((tc.0 + 10) as int, (tc.1 + 10) as int),
                forall|k: int|
                    0 <= k < cand@.len() ==> in_cell_box(lo, hi, (#[trigger] cand@[k]).0)
                        && walkable(self@, cand@[k].0) && cand@[k].1 == gdist2i(cand@[k].0, t)
                        && cand@[k].0.0 - tc.0 < dx,
                forall|k1: int, k2: int|
                    0 <= k1 < k2 < cand@.len() ==> scan_before(
                        (#[trigger] cand@[k1]).0,
                        (#[trigger] cand@[k2]).0,
                    ),
                forall|c: (i32, i32)| #![trigger in_cell_box(lo, hi, c)]
                    in_cell_box(lo, hi, c) && c.0 - tc.0 < dx && walkable(self@, c) ==> exists|
                        k: int,
                    | 0 <= k < cand@.len() && (#[trigger] cand@[k]).0 == c,
            decreases 11 - dx,
        {
            let mut dy: i32 = -10;
            while dy <= 10
                invariant
                    -10 <= dx <= 10,
                    -10 <= dy <= 11,
                    -3_000_000 <= tc.0 <= 3_000_000,
                    -3_000_000 <= tc.1 <= 3_000_000,
                    t == (tc.0 as int, tc.1 as int),
                    lo == ((tc.0 - 10) as int, (tc.1 - 10) as int),
                    hi == ((tc.0 + 10) as int, (tc.1 + 10) as int),
                    forall|k: int|
                        0 <= k < cand@.len() ==> in_cell_box(lo, hi, (#[trigger] cand@[k]).0)
                            && walkable(self@, cand@[k].0) && cand@[k].1 == gdist2i(cand@[k].0, t)
                            && (cand@[k].0.0 - tc.0 < dx || (cand@[k].0.0 - tc.0 == dx
                            && cand@[k].0.1 - tc.1 < dy)),
                    forall|k1: int, k2: int|
                        0 <= k1 < k2 < cand@.len() ==> scan_before(
                            (#[trigger] cand@[k1]).0,
                            (#[trigger] cand@[k2]).0,
                        ),
                    forall|c: (i32, i32)| #![trigger in_cell_box(lo, hi, c)]
                        in_cell_box(lo, hi, c) && (c.0 - tc.0 < dx || (c.0 - tc.0 == dx && c.1
                            - tc.1 < dy)) && walkable(self@, c) ==> exists|k: int|
                            0 <= k < cand@.len() && (#[trigger] cand@[k]).0 == c,
                decreases 11 - dy,
            {
                let c = (tc.0 + dx, tc.1 + dy);
                if self.is_node_walkable(c) {
                    let dxl = dx as i64;
                    let dyl = dy as i64;
                    proof {
                        assert(0 <= dxl * dxl <= 100 && 0 <= dyl * dyl <= 100) by (nonlinear_arith)
                            requires
                                -10 <= dxl <= 10,
                                -10 <= dyl <= 10,
                        ;
                    }
                    let d2 = dxl * dxl + dyl * dyl;
                    proof {
                        assert(d2 == gdist2i(c, t));
                    }
                    let ghost cand0 = cand@;
                    cand.push((c, d2));
                    proof {
                        assert forall|cc: (i32, i32)| #![trigger in_cell_box(lo, hi, cc)]
                            in_cell_box(lo, hi, cc) && (cc.0 - tc.0 < dx || (cc.0 - tc.0 == dx
                                && cc.1 - tc.1 < dy + 1)) && walkable(self@, cc) implies exists|
                            k: int,
                        | 0 <= k < cand@.len() && (#[trigger] cand@[k]).0 == cc by {
                            if cc.0 == c.0 && cc.1 == c.1 {
                                assert(cand@[cand@.len() - 1].0 == cc);
                            } else {
                                let k0 = choose|k: int|
                                    0 <= k < cand0.len() && (#[trigger] cand0[k]).0 == cc;
                                assert(cand@[k0].0 == cc);
                            }
                        }
                    }
                }
                dy = dy + 1;
            }
            dx = dx + 1;
        }
        if cand.len() == 0 {
            return None;
        }
        // Stable insertion sort by squared distance: equal keys keep
        // their scan order.
        let cn = cand.len();
        let mut sorted: Vec<((i32, i32), i64)> = Vec::new();
        let mut i: usize = 0;
        while i < cn
            invariant
                i <= cn,
                cn == cand@.len(),
                sorted@.len() == i,
                forall|k: int|
                    0 <= k < cand@.len() ==> in_cell_box(lo, hi, (#[trigger] cand@[k]).0)
                        && walkable(self@, cand@[k].0) && cand@[k].1 == gdist2i(cand@[k].0, t),
                scan_ordered(cand@),
                holds_prefix(sorted@, cand@, i as int),
                from_prefix(sorted@, cand@, i as int),
                lex_sorted(sorted@),
            decreases cn - i,
        {
            let e = cand[i];
            let mut pos: usize = 0;
            loop
                invariant
                    pos <= sorted@.len(),
                    forall|k: int| 0 <= k < pos ==> (#[trigger] sorted@[k]).1 <= e.1,
                ensures
                    pos <= sorted@.len(),
                    forall|k: int| 0 <= k < pos ==> (#[trigger] sorted@[k]).1 <= e.1,
                    pos == sorted@.len() || sorted@[pos as int].1 > e.1,
                decreases sorted@.len() - pos,
            {
                if pos == sorted.len() {
                    break ;
                }
                if sorted[pos].1 > e.1 {
                    break ;
                }
                pos = pos + 1;
            }
            let ghost old_sorted = sorted@;
            sorted.insert(pos, e);
            proof {
                lemma_sorted_insert(old_sorted, sorted@, cand@, i as int, pos as int);
            }
            i = i + 1;
        }
        // Keep the first n entries.
        let mut out: Vec<(i32, i32)> = Vec::new();
        let mut k: usize = 0;
        while k < n && k < cn
            invariant
                cn == cand@.len(),
                sorted@.len() == cn,
                holds_prefix(sorted@, cand@, cn as int),
                from_prefix(sorted@, cand@, cn as int),
                lex_sorted(sorted@),
                forall|kk: int|
                    0 <= kk < cand@.len() ==> in_cell_box(lo, hi, (#[trigger] cand@[kk]).0)
                        && walkable(self@, cand@[kk].0) && cand@[kk].1 == gdist2i(cand@[kk].0, t),
                scan_ordered(cand@),
                out@.len() == k,
                k <= n,
                k <= cn,
                forall|j: int| 0 <= j < k ==> #[trigger] out@[j] == sorted@[j].0,
            decreases cn - k,
        {
            let entry = sorted[k];
            out.push(entry.0);
            k = k + 1;
        }
        proof {
            assert(out@.len() == vstd::math::min(n as int, cn as int));
            let v = out@;
            assert forall|kk: int|
                0 <= kk < v.len() implies in_cell_box(lo, hi, #[trigger] v[kk]) && walkable(
                self@,
                v[kk],
            ) by {
                assert(v[kk] == sorted@[kk].0);
                assert(cand@.subrange(0, cn as int).contains(sorted@[kk]));
                let j = choose|j: int|
                    0 <= j < cn && #[trigger] cand@.subrange(0, cn as int)[j] == sorted@[kk];
                assert(cand@[j] == sorted@[kk]);
                assert(in_cell_box(lo, hi, cand@[j].0));
            }
            assert forall|k1: int, k2: int|
                0 <= k1 < k2 < v.len() implies (gdist2i(#[trigger] v[k1], t) < gdist2i(
                #[trigger] v[k2],
                t,
            ) || (gdist2i(v[k1], t) == gdist2i(v[k2], t) && scan_before(v[k1], v[k2]))) by {
                assert(v[k1] == sorted@[k1].0 && v[k2] == sorted@[k2].0);
                assert(cand@.subrange(0, cn as int).contains(sorted@[k1]));
                assert(cand@.subrange(0, cn as int).contains(sorted@[k2]));
                let j1 = choose|j: int|
                    0 <= j < cn && #[trigger] cand@.subrange(0, cn as int)[j] == sorted@[k1];
                let j2 = choose|j: int|
                    0 <= j < cn && #[trigger] cand@.subrange(0, cn as int)[j] == sorted@[k2];
                assert(cand@[j1] == sorted@[k1] && cand@[j2] == sorted@[k2]);
                assert(sorted@[k1].1 == gdist2i(sorted@[k1].0, t));
                assert(sorted@[k2].1 == gdist2i(sorted@[k2].0, t));
            }
            if v.len() < n {
                assert(v.len() == cn);
                assert forall|c: (i32, i32)| #![trigger in_cell_box(lo, hi, c)]
                    in_cell_box(lo, hi, c) && walkable(self@, c) implies v.contains(c) by {
                    let k0 = choose|k0: int| 0 <= k0 < cand@.len() && (#[trigger] cand@[k0]).0 == c;
                    let ghost ce = cand@[k0];
                    assert(sorted@.contains(ce));
                    let k1 = choose|k1: int| 0 <= k1 < sorted@.len() && #[trigger] sorted@[k1] == ce;
                    assert(v[k1] == c);
                }
            }
            assert forall|c: (i32, i32), kk: int|
                #![trigger in_cell_box(lo, hi, c), v[kk]]
                in_cell_box(lo, hi, c) && walkable(self@, c) && !v.contains(c) && 0 <= kk
                    < v.len() implies (gdist2i(v[kk], t) < gdist2i(c, t) || (gdist2i(v[kk], t)
                == gdist2i(c, t) && scan_before(v[kk], c))) by {
                let k0 = choose|k0: int| 0 <= k0 < cand@.len() && (#[trigger] cand@[k0]).0 == c;
                let ghost ce = cand@[k0];
                assert(ce.1 == gdist2i(c, t));
                assert(sorted@.contains(ce));
                let k1 = choose|k1: int| 0 <= k1 < sorted@.len() && #[trigger] sorted@[k1] == ce;
                if k1 < v.len() {
                    assert(v[k1] == c);
                    assert(v.contains(c));
                } else {
                    assert(v[kk] == sorted@[kk].0);
                    assert(sorted@[kk].1 < sorted@[k1].1 || (sorted@[kk].1 == sorted@[k1].1
                        && scan_before(sorted@[kk].0, sorted@[k1].0)));
                    assert(sorted@[kk].1 == gdist2i(sorted@[kk].0, t));
                }
            }
        }
        Some(out)
    }
}


/// One step of the stable insertion sort: inserting candidate `i` at
/// position `pos` (after every entry with a key not above its own)
/// keeps the accumulating sequence a lexicographically sorted
/// rearrangement of the candidates processed so far.
#[verifier::rlimit(100)]
proof fn lemma_sorted_insert(
    old_sorted: Seq<((i32, i32), i64)>,
    new_sorted: Seq<((i32, i32), i64)>,
    cand: Seq<((i32, i32), i64)>,
    i: int,
    pos: int,
)
    requires
        0 <= i < cand.len(),
        0 <= pos <= old_sorted.len(),
        new_sorted == old_sorted.insert(pos, cand[i]),
        forall|k: int| 0 <= k < pos ==> (#[trigger] old_sorted[k]).1 <= cand[i].1,
        pos == old_sorted.len() || old_sorted[pos].1 > cand[i].1,
        scan_ordered(cand),
        holds_prefix(old_sorted, cand, i),
        from_prefix(old_sorted, cand, i),
        lex_sorted(old_sorted),
    ensures
        new_sorted.len() == old_sorted.len() + 1,
        holds_prefix(new_sorted, cand, i + 1),
        from_prefix(new_sorted, cand, i + 1),
        lex_sorted(new_sorted),
{
    old_sorted.insert_ensures(pos, cand[i]);
    assert(new_sorted[pos] == cand[i]);
    assert forall|j: int| 0 <= j < i + 1 implies new_sorted.contains(#[trigger] cand[j]) by {
        if j == i {
            assert(new_sorted[pos] == cand[j]);
        } else {
            assert(old_sorted.contains(cand[j]));
            let k0 = choose|k: int| 0 <= k < old_sorted.len() && #[trigger] old_sorted[k] == cand[j];
            if k0 < pos {
                assert(new_sorted[k0] == cand[j]);
            } else {
                assert(new_sorted[k0 + 1] == cand[j]);
            }
        }
    }
    assert forall|k: int|
        0 <= k < new_sorted.len() implies cand.subrange(0, i + 1).contains(
        #[trigger] new_sorted[k]) by {
        if k == pos {
            assert(cand.subrange(0, i + 1)[i] == cand[i]);
            assert(new_sorted[k] == cand[i]);
        } else {
            let k0: int = if k < pos {
                k
            } else {
                k - 1
            };
            assert(new_sorted[k] == old_sorted[k0]);
            assert(cand.subrange(0, i).contains(old_sorted[k0]));
            let j = choose|j: int|
                0 <= j < i && #[trigger] cand.subrange(0, i)[j] == old_sorted[k0];
            assert(cand.subrange(0, i + 1)[j] == cand[j]);
        }
    }
    assert forall|k1: int, k2: int|
        0 <= k1 < k2 < new_sorted.len() implies ((#[trigger] new_sorted[k1]).1 < (
    #[trigger] new_sorted[k2]).1 || (new_sorted[k1].1 == new_sorted[k2].1 && scan_before(
        new_sorted[k1].0,
        new_sorted[k2].0,
    ))) by {
        if k1 < pos && k2 < pos {
            assert(new_sorted[k1] == old_sorted[k1] && new_sorted[k2] == old_sorted[k2]);
        } else if k1 < pos && k2 == pos {
            assert(new_sorted[k1] == old_sorted[k1]);
            assert(old_sorted[k1].1 <= cand[i].1);
            if old_sorted[k1].1 == cand[i].1 {
                assert(cand.subrange(0, i).contains(old_sorted[k1]));
                let j1 = choose|j: int|
                    0 <= j < i && #[trigger] cand.subrange(0, i)[j] == old_sorted[k1];
                assert(cand[j1] == old_sorted[k1]);
                assert(scan_before(cand[j1].0, cand[i].0));
            }
        } else if k1 < pos && k2 > pos {
            assert(new_sorted[k1] == old_sorted[k1] && new_sorted[k2] == old_sorted[k2 - 1]);
        } else if k1 == pos && k2 > pos {
            assert(new_sorted[k2] == old_sorted[k2 - 1]);
            assert(old_sorted[pos].1 > cand[i].1);
            if k2 - 1 > pos {
                assert(old_sorted[pos].1 < old_sorted[k2 - 1].1 || (old_sorted[pos].1
                    == old_sorted[k2 - 1].1 && scan_before(old_sorted[pos].0, old_sorted[k2
                    - 1].0)));
            }
        } else {
            assert(new_sorted[k1] == old_sorted[k1 - 1] && new_sorted[k2] == old_sorted[k2 - 1]);
        }
    }
}


impl Grid {
    /// Spawn placement for `count` actors around a world-space center:
    /// the world centers of the `count` nearest walkable cells around
    /// the center, in the order the n-closest search hands them out,
    /// so that several actors fan out around one spawn point without
    /// overlapping. `None` exactly when the neighborhood holds no
    /// walkable cell.
    pub fn generate_spawn_positions(&self, center: (i64, i64), count: usize) -> (r: Option<
        Vec<(i64, i64)>,
    >)
        requires
            -100_000_000_000 <= center.0 <= 100_000_000_000,
            -100_000_000_000 <= center.1 <= 100_000_000_000,
        ensures
            ({
                let t = cell_from_world(center.0 as int, center.1 as int);
                match r {
                    None => no_walkable_in_box(self@, (t.0 - 10, t.1 - 10), (t.0 + 10, t.1 + 10)),
                    Some(ws) => exists|cells: Seq<(i32, i32)>|
                        #[trigger] n_closest_post(self@, t, count as int, cells)
                            && ws@.len() == cells.len() && forall|j: int|
                            0 <= j < cells.len() ==> ((#[trigger] ws@[j]).0 as int,
                            ws@[j].1 as int) == world_from_cell(
                                cells[j].0 as int,
                                cells[j].1 as int,
                            ),
                }
            }),
    {
        let tc = self.get_grid_from_coord(center);
        let cells = match self.find_n_closest_walkable_grids(center, count) {
            None => {
                return None;
            },
            Some(cells) => cells,
        };
        let ghost t = cell_from_world(center.0 as int, center.1 as int);
        let n = cells.len();
        let mut ws: Vec<(i64, i64)> = Vec::new();
        let mut i: usize = 0;
        while i < n
            invariant
                i <= n,
                n == cells@.len(),
                ws@.len() == i,
                -3_000_000 <= tc.0 <= 3_000_000,
                -3_000_000 <= tc.1 <= 3_000_000,
                t == (tc.0 as int, tc.1 as int),
                n_closest_post(self@, t, count as int, cells@),
                forall|j: int|
                    0 <= j < i ==> ((#[trigger] ws@[j]).0 as int, ws@[j].1 as int)
                        == world_from_cell(cells@[j].0 as int, cells@[j].1 as int),
            decreases n - i,
        {
            let c = cells[i];
            proof {
                assert(in_cell_box((t.0 - 10, t.1 - 10), (t.0 + 10, t.1 + 10), cells@[i as int]));
            }
            let w = self.get_coord_from_grid(c.0, c.1);
            ws.push(w);
            i = i + 1;
        }
        proof {
            assert(n_closest_post(self@, t, count as int, cells@));
        }
        Some(ws)
    }
}

/// At most one cell of a box is its world-nearest walkable cell: the
/// scan-order tie-break makes the searched minimum unique.
pub proof fn lemma_world_closest_unique(
    blocked: Set<(i32, i32)>,
    lo: (int, int),
    hi: (int, int),
    p: (int, int),
    c1: (i32, i32),
    c2: (i32, i32),
)
    requires
        world_closest_in_box(blocked, lo, hi, p, c1),
        world_closest_in_box(blocked, lo, hi, p, c2),
    ensures
        c1 == c2,
{
    if c1 != c2 {
        assert(in_cell_box(lo, hi, c1));
        assert(in_cell_box(lo, hi, c2));
    }
}

/// At most one cell of a box is its grid-nearest walkable cell.
pub proof fn lemma_grid_closest_unique(
    blocked: Set<(i32, i32)>,
    lo: (int, int),
    hi: (int, int),
    t: (i32, i32),
    c1: (i32, i32),
    c2: (i32, i32),
)
    requires
        grid_closest_in_box(blocked, lo, hi, t, c1),
        grid_closest_in_box(blocked, lo, hi, t, c2),
    ensures
        c1 == c2,
{
    if c1 != c2 {
        assert(in_cell_box(lo, hi, c1));
        assert(in_cell_box(lo, hi, c2));
    }
}

} // verus!
