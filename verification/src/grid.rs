//! The walkability grid: coordinate mapping between world-pixel space and
//! grid cells, the per-scene obstacle set, and the walkability rules.
//!
//! A grid cell is an `(i32, i32)` pair. World positions are milli-pixels
//! (`i64`, thousandths of a pixel), so that the isometric calibration
//! constants can be applied in exact integer arithmetic:
//!
//! - rotation angle `a`: `cos a = 0.966132`, `sin a = 0.258047`
//!   (stored as millionths: `966_132` and `258_047`),
//! - shear coefficient `m = -1.744` (millionths: `-1_744_000`),
//! - anisotropic stretch `(38.81, 10.32)` pixels (milli-pixels:
//!   `38_810` and `10_320`),
//! - vertical grid offset `10` pixels (milli-pixels: `10_000`),
//! - a factor `3` between world pixels and transform-space pixels.

use vstd::prelude::*;

verus! {

use crate::fixed::floor_div;
use vstd::arithmetic::div_mod::lemma_fundamental_div_mod;
use vstd::arithmetic::div_mod::lemma_mod_bound;
use vstd::arithmetic::div_mod::lemma_div_multiples_vanish;
use vstd::arithmetic::div_mod::lemma_div_multiples_vanish_fancy;

/// A cell satisfies the fixed boundary inequalities of the diamond-shaped
/// playable region. Independent of the obstacle set.
pub open spec fn in_bounds(c: (i32, i32)) -> bool {
    &&& c.0 - c.1 < 16
    &&& c.1 - c.0 < 16
    &&& c.0 + c.1 <= 64
    &&& c.0 + c.1 > 17
}

/// A cell is walkable for the given obstacle set: inside the boundary
/// inequalities and not an obstacle.
pub open spec fn walkable(blocked: Set<(i32, i32)>, c: (i32, i32)) -> bool {
    &&& !blocked.contains(c)
    &&& in_bounds(c)
}

/// The grid owns the obstacle set of the current scene; the five
/// calibration scalars are fixed constants of the engine and appear as
/// literals in the coordinate transform below.
pub struct Grid {
    blocked: Vec<(i32, i32)>,
}

impl View for Grid {
    type V = Set<(i32, i32)>;

    closed spec fn view(&self) -> Set<(i32, i32)> {
        self.blocked@.to_set()
    }
}

impl Grid {
    /// A fresh grid with no obstacles.
    pub fn new() -> (g: Grid)
        ensures
            g@ == Set::<(i32, i32)>::empty(),
    {
        let g = Grid { blocked: Vec::new() };
        proof {
            assert(g@ =~= Set::<(i32, i32)>::empty());
        }
        g
    }

    /// Replaces the obstacle set wholesale; called on scene or level
    /// transitions.
    pub fn update_blocked_nodes(&mut self, blocked_nodes: Vec<(i32, i32)>)
        ensures
            final(self)@ == blocked_nodes@.to_set(),
    {
        self.blocked = blocked_nodes;
    }

    /// True exactly when the obstacle set lists this cell.
    fn is_blocked(&self, node: (i32, i32)) -> (r: bool)
        ensures
            r == self@.contains(node),
    {
        let n = self.blocked.len();
        let mut i: usize = 0;
        while i < n
            invariant
                i <= n,
                n == self.blocked@.len(),
                forall|j: int| 0 <= j < i ==> self.blocked@[j] != node,
            decreases n - i,
        {
            let b = self.blocked[i];
            if b.0 == node.0 && b.1 == node.1 {
                proof {
                    assert(self.blocked@[i as int] == node);
                }
                return true;
            }
            i = i + 1;
        }
        proof {
            assert(!self.blocked@.contains(node));
        }
        false
    }

    /// Decides traversability of a cell: it must not be an obstacle and
    /// must satisfy all four boundary inequalities. In particular every
    /// obstacle cell is unwalkable, and every cell outside the boundary
    /// inequalities is unwalkable no matter what the obstacle set holds.
    pub fn is_node_walkable(&self, node: (i32, i32)) -> (r: bool)
        ensures
            r == walkable(self@, node),
    {
        if self.is_blocked(node) {
            return false;
        }
        let x = node.0 as i64;
        let y = node.1 as i64;
        if x - y >= 16 {
            return false;
        }
        if y - x >= 16 {
            return false;
        }
        if x + y > 64 {
            return false;
        }
        if x + y <= 17 {
            return false;
        }
        true
    }
}

/// World position (milli-pixels) of the center of a grid cell: scale by
/// the stretch pair, rotate by the calibration angle, shear, add the
/// vertical offset, and scale into world pixels. All divisions are by
/// positive constants and round toward negative infinity.
pub open spec fn world_from_cell(x: int, y: int) -> (int, int) {
    let gx = (x - 1) * 38_810;
    let gy = (y - 17) * 10_320;
    let rx = (966_132 * gx - 258_047 * gy) / 1_000_000;
    let ry = (258_047 * gx + 966_132 * gy) / 1_000_000;
    let tx = rx + (-(1_744_000 * ry)) / 1_000_000;
    let ty = ry + 10_000;
    (3 * tx, 3 * ty)
}

/// Grid cell whose center lies nearest to a world position (milli-pixels):
/// the inverse transform (unscale, unshear, rotate back, unstretch)
/// followed by rounding to the nearest cell index (ties upward).
pub open spec fn cell_from_world(wx: int, wy: int) -> (int, int) {
    let vx = wx / 3;
    let vy = wy / 3 - 10_000;
    let ux = vx - (-(1_744_000 * vy)) / 1_000_000;
    let uy = vy;
    let rx = (966_132 * ux + 258_047 * uy) / 1_000_000;
    let ry = (966_132 * uy - 258_047 * ux) / 1_000_000;
    let cx = (2 * rx + 38_810) / 77_620;
    let cy = (2 * ry + 10_320) / 20_640;
    (cx + 1, cy + 17)
}

impl Grid {
    /// World position (milli-pixels) of the center of grid cell `(x, y)`.
    #[verifier::rlimit(100)]
    pub fn get_coord_from_grid(&self, x: i32, y: i32) -> (w: (i64, i64))
        requires
            -10_000_000 <= x <= 10_000_000,
            -10_000_000 <= y <= 10_000_000,
        ensures
            (w.0 as int, w.1 as int) == world_from_cell(x as int, y as int),
            -3_000_000_000_000 <= w.0 <= 3_000_000_000_000,
            -3_000_000_000_000 <= w.1 <= 3_000_000_000_000,
    {
        let gx = (x as i64 - 1) * 38_810;
        let gy = (y as i64 - 17) * 10_320;
        assert(-389_000_000_000 <= gx <= 389_000_000_000);
        assert(-104_000_000_000 <= gy <= 104_000_000_000);
        let rx = floor_div(966_132 * gx - 258_047 * gy, 1_000_000);
        let ry = floor_div(258_047 * gx + 966_132 * gy, 1_000_000);
        assert(-403_000_000_000 <= rx <= 403_000_000_000);
        assert(-201_000_000_000 <= ry <= 201_000_000_000);
        let sh = floor_div(-(1_744_000 * ry), 1_000_000);
        assert(-351_000_000_000 <= sh <= 351_000_000_000);
        let tx = rx + sh;
        let ty = ry + 10_000;
        (3 * tx, 3 * ty)
    }

    /// Grid cell nearest to a world position (milli-pixels).
    #[verifier::rlimit(100)]
    pub fn get_grid_from_coord(&self, v: (i64, i64)) -> (c: (i32, i32))
        requires
            -100_000_000_000 <= v.0 <= 100_000_000_000,
            -100_000_000_000 <= v.1 <= 100_000_000_000,
        ensures
            (c.0 as int, c.1 as int) == cell_from_world(v.0 as int, v.1 as int),
            -3_000_000 <= c.0 <= 3_000_000,
            -3_000_000 <= c.1 <= 3_000_000,
    {
        let vx = floor_div(v.0, 3);
        let vy = floor_div(v.1, 3) - 10_000;
        assert(-34_000_000_000 <= vx <= 34_000_000_000);
        assert(-34_000_000_000 <= vy <= 34_000_000_000);
        let sh = floor_div(-(1_744_000 * vy), 1_000_000);
        assert(-60_000_000_000 <= sh <= 60_000_000_000);
        let ux = vx - sh;
        let uy = vy;
        let rx = floor_div(966_132 * ux + 258_047 * uy, 1_000_000);
        let ry = floor_div(966_132 * uy - 258_047 * ux, 1_000_000);
        assert(-100_000_000_000 <= rx <= 100_000_000_000);
        assert(-100_000_000_000 <= ry <= 100_000_000_000);
        let cx = floor_div(2 * rx + 38_810, 77_620);
        let cy = floor_div(2 * ry + 10_320, 20_640);
        assert(-3_000_000 <= cx + 1 <= 3_000_000);
        assert(-3_000_000 <= cy + 17 <= 3_000_000);
        ((cx + 1) as i32, (cy + 17) as i32)
    }
}

/// Round-trip identity of the coordinate mapper: mapping a grid cell to
/// the world position of its center and back rounds to the same cell.
/// The bound on the coordinates keeps every intermediate product of the
/// fixed-point transform far inside the range where the rounding error
/// stays below half a cell.
#[verifier::rlimit(100)]
pub proof fn lemma_cell_world_round_trip(x: int, y: int)
    requires
        -100_000 <= x <= 100_000,
        -100_000 <= y <= 100_000,
    ensures
        cell_from_world(world_from_cell(x, y).0, world_from_cell(x, y).1) == (x, y),
{
    let gx = (x - 1) * 38_810;
    let gy = (y - 17) * 10_320;
    let a = 966_132 * gx - 258_047 * gy;
    let b = 258_047 * gx + 966_132 * gy;
    let rx = a / 1_000_000;
    let ry = b / 1_000_000;
    let a1 = a % 1_000_000;
    let b1 = b % 1_000_000;
    lemma_fundamental_div_mod(a, 1_000_000);
    lemma_fundamental_div_mod(b, 1_000_000);
    lemma_mod_bound(a, 1_000_000);
    lemma_mod_bound(b, 1_000_000);
    let shear = (-(1_744_000 * ry)) / 1_000_000;
    let tx = rx + shear;
    let wx = 3 * tx;
    let wy = 3 * (ry + 10_000);
    assert(world_from_cell(x, y) == (wx, wy));

    // The inverse transform recovers the sheared intermediates exactly.
    lemma_div_multiples_vanish(tx, 3);
    lemma_div_multiples_vanish(ry + 10_000, 3);
    assert(wx / 3 == tx);
    assert(wy / 3 == ry + 10_000);
    let vy = wy / 3 - 10_000;
    assert(vy == ry);
    let ux = wx / 3 - (-(1_744_000 * vy)) / 1_000_000;
    assert(ux == rx);

    // Forward rotation of the recovered intermediates: the rotation
    // matrix applied twice scales each axis by
    // s = 966_132^2 + 258_047^2 = 999_999_295_633 per 10^12.
    let na = 966_132 * rx + 258_047 * ry;
    let nb = 966_132 * ry - 258_047 * rx;
    assert(1_000_000 * na == 999_999_295_633 * gx - 966_132 * a1 - 258_047 * b1);
    assert(1_000_000 * nb == 999_999_295_633 * gy - 966_132 * b1 + 258_047 * a1);

    let rx2 = na / 1_000_000;
    let ry2 = nb / 1_000_000;
    lemma_fundamental_div_mod(na, 1_000_000);
    lemma_fundamental_div_mod(nb, 1_000_000);
    lemma_mod_bound(na, 1_000_000);
    lemma_mod_bound(nb, 1_000_000);

    // Error of the recovered stretch-space coordinates, against the exact
    // multiples gx = (x - 1) * 38_810 and gy = (y - 17) * 10_320.
    assert(-3_890_000_000 <= gx <= 3_890_000_000);
    assert(-1_032_200_000 <= gy <= 1_032_200_000);
    assert(-4_000 <= rx2 - gx <= 4_000);
    assert(-2_000 <= ry2 - gy <= 2_000);

    // Rounding to the nearest cell absorbs that error: the stretch
    // divisors are 38_810 and 10_320, so anything within half of them
    // rounds back.
    let ex = 2 * (rx2 - gx) + 38_810;
    assert(0 <= ex < 77_620);
    assert(2 * rx2 + 38_810 == 77_620 * (x - 1) + ex);
    lemma_div_multiples_vanish_fancy(x - 1, ex, 77_620);
    assert((2 * rx2 + 38_810) / 77_620 == x - 1);

    let ey = 2 * (ry2 - gy) + 10_320;
    assert(0 <= ey < 20_640);
    assert(2 * ry2 + 10_320 == 20_640 * (y - 17) + ey);
    lemma_div_multiples_vanish_fancy(y - 17, ey, 20_640);
    assert((2 * ry2 + 10_320) / 20_640 == y - 17);

    assert(cell_from_world(wx, wy) == (x, y));
}

/// `b` is one of the eight neighbors of `a` on the grid.
pub open spec fn adjacent8(a: (i32, i32), b: (i32, i32)) -> bool {
    &&& (a.0 != b.0 || a.1 != b.1)
    &&& -1 <= b.0 - a.0 <= 1
    &&& -1 <= b.1 - a.1 <= 1
}

/// The diagonal step from `from` to `to` cuts a blocked corner: the step
/// moves on both axes and the two orthogonal cells flanking it are both
/// obstacles. Only diagonal traversal is suppressed by this; the cell
/// `to` itself may stay walkable for orthogonal approaches.
pub open spec fn corner_cut(blocked: Set<(i32, i32)>, from: (i32, i32), to: (i32, i32)) -> bool {
    &&& to.0 != from.0
    &&& to.1 != from.1
    &&& blocked.contains((to.0, from.1))
    &&& blocked.contains((from.0, to.1))
}

/// A single pathfinding step from `from` to `to` is allowed: `to` is one
/// of the eight neighbors, is walkable, and the step does not cut a
/// blocked corner.
pub open spec fn step_ok(blocked: Set<(i32, i32)>, from: (i32, i32), to: (i32, i32)) -> bool {
    &&& adjacent8(from, to)
    &&& walkable(blocked, to)
    &&& !corner_cut(blocked, from, to)
}

impl Grid {
    /// Appends the neighbor of `from` at offset `(dx, dy)` to `out` when
    /// that step is allowed (and representable).
    fn push_if_open(&self, out: &mut Vec<(i32, i32)>, from: (i32, i32), dx: i32, dy: i32)
        requires
            -1 <= dx <= 1,
            -1 <= dy <= 1,
            !(dx == 0 && dy == 0),
        ensures
            forall|c: (i32, i32)|
                final(out)@.contains(c) <==> (old(out)@.contains(c) || (c.0 == from.0 + dx
                    && c.1 == from.1 + dy && step_ok(self@, from, c))),
    {
        let nx_opt = from.0.checked_add(dx);
        let ny_opt = from.1.checked_add(dy);
        if let (Some(nx), Some(ny)) = (nx_opt, ny_opt) {
            let cand = (nx, ny);
            if self.is_node_walkable(cand) {
                let cut = if dx != 0 && dy != 0 {
                    self.is_blocked((nx, from.1)) && self.is_blocked((from.0, ny))
                } else {
                    false
                };
                if !cut {
                    out.push(cand);
                    proof {
                        assert(step_ok(self@, from, cand));
                        assert forall|c: (i32, i32)|
                            out@.contains(c) <==> (old(out)@.contains(c) || (c.0 == from.0 + dx
                                && c.1 == from.1 + dy && step_ok(self@, from, c))) by {
                            if out@.contains(c) {
                                let i = choose|i: int| 0 <= i < out@.len() && out@[i] == c;
                                if i < old(out)@.len() {
                                    assert(old(out)@[i] == c);
                                    assert(old(out)@.contains(c));
                                } else {
                                    assert(c == cand);
                                }
                            }
                            if old(out)@.contains(c) {
                                let i = choose|i: int|
                                    0 <= i < old(out)@.len() && old(out)@[i] == c;
                                assert(out@[i] == c);
                                assert(out@.contains(c));
                            }
                            if c.0 == from.0 + dx && c.1 == from.1 + dy && step_ok(
                                self@,
                                from,
                                c,
                            ) {
                                assert(c == cand);
                                assert(out@[old(out)@.len() as int] == cand);
                                assert(out@.contains(cand));
                            }
                        }
                    }
                    return ;
                }
            }
        }
    }

    /// The cells reachable from `pos` in one step: the eight neighbors,
    /// filtered by walkability and the corner-cut rule.
    pub fn get_neighbors(&self, pos: (i32, i32)) -> (r: Vec<(i32, i32)>)
        ensures
            forall|c: (i32, i32)| r@.contains(c) <==> step_ok(self@, pos, c),
    {
        let mut out: Vec<(i32, i32)> = Vec::new();
        self.push_if_open(&mut out, pos, -1, -1);
        self.push_if_open(&mut out, pos, 0, -1);
        self.push_if_open(&mut out, pos, 1, -1);
        self.push_if_open(&mut out, pos, -1, 0);
        self.push_if_open(&mut out, pos, 1, 0);
        self.push_if_open(&mut out, pos, -1, 1);
        self.push_if_open(&mut out, pos, 0, 1);
        self.push_if_open(&mut out, pos, 1, 1);
        proof {
            assert forall|c: (i32, i32)| out@.contains(c) <==> step_ok(self@, pos, c) by {
                if step_ok(self@, pos, c) {
                    assert(-1 <= c.0 - pos.0 <= 1 && -1 <= c.1 - pos.1 <= 1);
                }
            }
        }
        out
    }
}

/// The diagonal corner rule: when the two orthogonal cells flanking a
/// diagonal step are both obstacles, the diagonal neighbor is excluded
/// from the neighbor set, even where that diagonal cell itself is
/// walkable.
pub proof fn lemma_corner_cut_excludes_diagonal(
    blocked: Set<(i32, i32)>,
    from: (i32, i32),
    to: (i32, i32),
)
    requires
        adjacent8(from, to),
        to.0 != from.0,
        to.1 != from.1,
        blocked.contains((to.0, from.1)),
        blocked.contains((from.0, to.1)),
    ensures
        !step_ok(blocked, from, to),
{
}

/// Every obstacle cell is unwalkable.
pub proof fn lemma_blocked_never_walkable(blocked: Set<(i32, i32)>, c: (i32, i32))
    requires
        blocked.contains(c),
    ensures
        !walkable(blocked, c),
{
}

/// Every cell outside the four boundary inequalities is unwalkable,
/// regardless of the obstacle set.
pub proof fn lemma_out_of_bounds_never_walkable(blocked: Set<(i32, i32)>, c: (i32, i32))
    requires
        !in_bounds(c),
    ensures
        !walkable(blocked, c),
{
}

} // verus!
