//! Per-actor movement state and its per-tick integration along a
//! computed path.
//!
//! Positions are world milli-pixels, speeds milli-pixels per second,
//! and times milliseconds. Each tick the actor moves from its position
//! toward the world center of the path's head cell by at most
//! `speed * delta_time`, derives its facing from the movement vector,
//! advances its walk animation, and pops the head waypoint once it is
//! within the arrival threshold (5 pixels). An actor holds a path
//! exactly while it holds a target cell; the moment the path empties,
//! path, target and running flag are cleared together.

use vstd::prelude::*;

verus! {

use crate::fixed::dist2_i128;
use crate::fixed::sqrt_ceil_u128;
use crate::fixed::sqrt_ceil;
use crate::fixed::is_sqrt_ceil;
use crate::fixed::lemma_sqrt_ceil_is;
use crate::fixed::lemma_quantized_unit;
use crate::fixed::lemma_step_bound;
use vstd::math::abs;
use crate::grid::Grid;
use crate::grid::world_from_cell;

/// One of the eight compass facings an actor sprite can show.
#[derive(Debug, Clone, Copy, PartialEq, Eq, Structural)]
pub enum Direction {
    SouthWest,
    West,
    NorthWest,
    North,
    NorthEast,
    East,
    SouthEast,
    South,
}

/// The compass sector of a nonzero movement vector (`dy` grows toward
/// the bottom of the screen). Sector seams sit at 23, 68, ..., 338
/// degrees; each test compares the vector against a seam ray through
/// the cross product, with the ray direction held in millionths
/// (for example the 23-degree ray is `(920_505, 390_731)`).
pub open spec fn dir_of(dx: int, dy: int) -> Direction {
    let c23 = 920_505 * dy - 390_731 * dx;
    let c68 = 374_607 * dy - 927_184 * dx;
    let c113 = -(390_731 * dy) - 920_505 * dx;
    let c158 = -(927_184 * dy) - 374_607 * dx;
    if c23 >= 0 && c68 < 0 {
        Direction::SouthEast
    } else if c68 >= 0 && c113 < 0 {
        Direction::South
    } else if c113 >= 0 && c158 < 0 {
        Direction::SouthWest
    } else if c158 >= 0 && c23 > 0 {
        Direction::West
    } else if c23 <= 0 && c68 > 0 {
        Direction::NorthWest
    } else if c68 <= 0 && c113 > 0 {
        Direction::North
    } else if c113 <= 0 && c158 > 0 {
        Direction::NorthEast
    } else {
        Direction::East
    }
}

/// Immutable per-actor movement parameters (speeds in milli-pixels per
/// second).
#[derive(Debug, Clone)]
pub struct CharacterData {
    pub name: String,
    pub speed: i64,
    pub run_speed: i64,
}

/// The motion state of one actor.
pub struct Character {
    pub data: CharacterData,
    pub position: (i64, i64),
    pub direction: Direction,
    pub animation_index: usize,
    pub animation_timer: i64,
    pub animation_speed: i64,
    pub path: Option<Vec<(i32, i32)>>,
    pub target: Option<(i32, i32)>,
    pub is_running: bool,
    pub last_click_time: i64,
}

/// Well-formedness of an actor: bounded animation and click-time
/// bookkeeping, sane speeds, and the path/target coupling — an actor
/// holds a path exactly while it holds a target cell.
pub open spec fn actor_wf(c: Character) -> bool {
    &&& c.animation_index < 8
    &&& 0 <= c.animation_timer <= 4_000_000_000_000_000
    &&& 1 <= c.animation_speed <= 1_000_000_000
    &&& 0 <= c.data.speed <= 1_000_000_000
    &&& 0 <= c.data.run_speed <= 1_000_000_000
    &&& 0 <= c.last_click_time <= 4_000_000_000_000_000
    &&& (c.path is Some <==> c.target is Some)
    &&& (c.path matches Some(p) ==> p@.len() > 0)
}

/// The actor at rest: no path and no target.
pub open spec fn is_idle(c: Character) -> bool {
    c.path is None && c.target is None
}

/// `c` with its animation rewound to the first frame.
pub open spec fn anim_reset(c: Character) -> Character {
    Character { animation_index: 0, animation_timer: 0, ..c }
}

/// `c` stopped: path, target and running flag cleared together, and the
/// animation rewound.
pub open spec fn stopped(c: Character) -> Character {
    Character {
        path: None,
        target: None,
        is_running: false,
        animation_index: 0,
        animation_timer: 0,
        ..c
    }
}

/// Animation frame and timer after one tick of `dt` milliseconds while
/// walking: the timer advances by `dt` (clamped to its bookkeeping
/// range), and each time it crosses the per-actor animation period the
/// frame advances modulo 8 and the period is subtracted, preserving
/// phase.
pub open spec fn anim_next(index: int, timer: int, speed: int, dt: int) -> (int, int) {
    let t1 = timer + dt;
    let t2 = if t1 > 4_000_000_000_000_000 {
        4_000_000_000_000_000int
    } else {
        t1
    };
    if t2 >= speed {
        (((index + 1) % 8), t2 - speed)
    } else {
        (index, t2)
    }
}

/// What one movement tick of `dt` milliseconds does to an actor whose
/// path head is `p[0]`: it moves at most `speed * dt` toward the head
/// cell's world center, faces along the movement vector, advances the
/// walk animation, and pops the head on arrival (within 5 pixels),
/// stopping once the path empties.
pub open spec fn moving_post(c0: Character, c1: Character, p: Seq<(i32, i32)>, dt: int) -> bool {
    let head = p[0];
    let w = world_from_cell(head.0 as int, head.1 as int);
    let dx = w.0 - c0.position.0;
    let dy = w.1 - c0.position.1;
    let spd = if c0.is_running {
        c0.data.run_speed
    } else {
        c0.data.speed
    };
    let moved = !(dx == 0 && dy == 0);
    let anim = anim_next(
        c0.animation_index as int,
        c0.animation_timer as int,
        c0.animation_speed as int,
        dt,
    );
    let arrived = (w.0 - c1.position.0) * (w.0 - c1.position.0) + (w.1 - c1.position.1) * (w.1
        - c1.position.1) < 25_000_000;
    &&& 1_000_000 * ((c1.position.0 - c0.position.0) * (c1.position.0 - c0.position.0) + (
    c1.position.1 - c0.position.1) * (c1.position.1 - c0.position.1)) <= (spd * dt) * (spd * dt)
    &&& (moved ==> {
        // The integrated position, exactly: the difference vector
        // scaled to norm 1000 over its rounded-up length, then by
        // speed and tick duration.
        let adx = abs(dx) as int;
        let ady = abs(dy) as int;
        let len = sqrt_ceil(adx * adx + ady * ady);
        let qx = (adx * 1000) / len;
        let qy = (ady * 1000) / len;
        let k = spd * dt;
        let sx = (qx * k) / 1_000_000;
        let sy = (qy * k) / 1_000_000;
        c1.position.0 == c0.position.0 + (if dx >= 0 {
            sx
        } else {
            -sx
        }) && c1.position.1 == c0.position.1 + (if dy >= 0 {
            sy
        } else {
            -sy
        })
    })
    &&& (moved ==> c1.direction == dir_of(dx, dy))
    &&& (!moved ==> c1.direction == c0.direction && c1.position == c0.position)
    &&& ((arrived && p.len() == 1) ==> c1 == stopped(Character { position: c1.position, direction: c1.direction, ..c0 }))
    &&& ((arrived && p.len() > 1) ==> ((c1.path matches Some(q) && q@ == p.subrange(
        1,
        p.len() as int,
    )) && c1.target == c0.target && c1.is_running == c0.is_running && c1.animation_index as int
        == anim.0 && c1.animation_timer as int == anim.1))
    &&& (!arrived ==> ((c1.path matches Some(q) && q@ == p) && c1.target == c0.target
        && c1.is_running == c0.is_running && c1.animation_index as int == anim.0
        && c1.animation_timer as int == anim.1))
}

impl Character {
    /// A fresh actor at `position`, facing south, idle, with the
    /// default animation period of a tenth of a second.
    pub fn new(data: CharacterData, position: (i64, i64)) -> (c: Character)
        requires
            0 <= data.speed <= 1_000_000_000,
            0 <= data.run_speed <= 1_000_000_000,
        ensures
            actor_wf(c),
            is_idle(c),
            c.data == data,
            c.position == position,
            c.direction == Direction::South,
            c.animation_index == 0,
            c.animation_timer == 0,
            c.animation_speed == 100,
            !c.is_running,
            c.last_click_time == 0,
    {
        Character {
            data,
            position,
            direction: Direction::South,
            animation_index: 0,
            animation_timer: 0,
            animation_speed: 100,
            path: None,
            target: None,
            is_running: false,
            last_click_time: 0,
        }
    }

    /// Replaces the in-flight path and final target together; a new
    /// navigation request replaces, never appends.
    pub fn set_path(&mut self, path: Option<Vec<(i32, i32)>>, target: Option<(i32, i32)>)
        requires
            path is Some <==> target is Some,
            path matches Some(p) ==> p@.len() > 0,
        ensures
            final(self).path == path,
            final(self).target == target,
            final(self).data == old(self).data,
            final(self).position == old(self).position,
            final(self).direction == old(self).direction,
            final(self).animation_index == old(self).animation_index,
            final(self).animation_timer == old(self).animation_timer,
            final(self).animation_speed == old(self).animation_speed,
            final(self).is_running == old(self).is_running,
            final(self).last_click_time == old(self).last_click_time,
            actor_wf(*old(self)) ==> actor_wf(*final(self)),
    {
        self.path = path;
        self.target = target;
    }

    /// Sets the animation period (milliseconds per frame).
    pub fn set_animation_speed(&mut self, speed: i64)
        requires
            1 <= speed <= 1_000_000_000,
        ensures
            *final(self) == (Character { animation_speed: speed, ..*old(self) }),
    {
        self.animation_speed = speed;
    }

    /// Rewinds the animation to frame zero with a cleared timer.
    pub fn reset_animation(&mut self)
        ensures
            *final(self) == anim_reset(*old(self)),
    {
        self.animation_index = 0;
        self.animation_timer = 0;
    }

    /// Forces the actor to Idle: clears path, target and running flag
    /// together and rewinds the animation, wherever the actor stands.
    pub fn stop(&mut self)
        ensures
            *final(self) == stopped(*old(self)),
            is_idle(*final(self)),
    {
        self.path = None;
        self.target = None;
        self.is_running = false;
        self.reset_animation();
    }

    /// Records a movement-issuing click at `now` (milliseconds) and
    /// reports whether it lands within the 300 ms double-click window
    /// of the previous one.
    pub fn is_double_click(&mut self, now: i64) -> (r: bool)
        requires
            0 <= now <= 4_000_000_000_000_000,
            0 <= old(self).last_click_time <= 4_000_000_000_000_000,
        ensures
            r == (now - old(self).last_click_time < 300),
            *final(self) == (Character { last_click_time: now, ..*old(self) }),
    {
        let is_double = now - self.last_click_time < 300;
        self.last_click_time = now;
        is_double
    }

    /// One simulation tick: integrates the actor along its path as
    /// described by `moving_post`, resets the animation when idle, and
    /// stops the actor when its path is (or becomes) empty.
    #[verifier::rlimit(100)]
    pub fn update(&mut self, grid: &Grid, delta_time: i64)
        requires
            actor_wf(*old(self)),
            0 <= delta_time <= 100_000,
            -2_000_000_000_000 <= old(self).position.0 <= 2_000_000_000_000,
            -2_000_000_000_000 <= old(self).position.1 <= 2_000_000_000_000,
            (old(self).path matches Some(p) ==> forall|i: int|
                0 <= i < p@.len() ==> -10_000_000 <= (#[trigger] p@[i]).0 <= 10_000_000
                    && -10_000_000 <= p@[i].1 <= 10_000_000),
        ensures
            actor_wf(*final(self)),
            final(self).data == old(self).data,
            final(self).animation_speed == old(self).animation_speed,
            final(self).last_click_time == old(self).last_click_time,
            old(self).path is None ==> *final(self) == anim_reset(*old(self)),
            old(self).path matches Some(p) ==> (p@.len() == 0 ==> *final(self) == stopped(
                *old(self),
            )),
            old(self).path matches Some(p) ==> (p@.len() > 0 ==> moving_post(
                *old(self),
                *final(self),
                p@,
                delta_time as int,
            )),
    {
        let path_opt = self.path.take();
        let mut p = match path_opt {
            None => {
                self.reset_animation();
                return ;
            },
            Some(p) => p,
        };
        if p.len() == 0 {
            self.stop();
            return ;
        }
        let head = p[0];
        let w = grid.get_coord_from_grid(head.0, head.1);
        let dx = w.0 - self.position.0;
        let dy = w.1 - self.position.1;
        if dx != 0 || dy != 0 {
            // Quantized unit direction: magnitudes scaled by 1000 over
            // the rounded-up vector length, so the norm stays at most
            // 1000 and one tick's movement at most speed * dt.
            let adx = if dx >= 0 {
                dx
            } else {
                -dx
            };
            let ady = if dy >= 0 {
                dy
            } else {
                -dy
            };
            proof {
                assert(0 <= adx <= 5_100_000_000_000 && 0 <= ady <= 5_100_000_000_000);
            }
            let n2 = dist2_i128(adx as i128, ady as i128);
            proof {
                assert(1 <= n2 <= 100_000_000_000_000_000_000_000_000) by (nonlinear_arith)
                    requires
                        n2 == adx as int * (adx as int) + ady as int * (ady as int),
                        0 <= adx <= 5_100_000_000_000,
                        0 <= ady <= 5_100_000_000_000,
                        adx >= 1 || ady >= 1,
                ;
            }
            let len128 = sqrt_ceil_u128(n2 as u128);
            let len = len128 as i64;
            let qx = (adx * 1000) / len;
            let qy = (ady * 1000) / len;
            proof {
                lemma_quantized_unit(adx as int, ady as int, len as int, qx as int, qy as int);
            }
            let spd = if self.is_running {
                self.data.run_speed
            } else {
                self.data.speed
            };
            proof {
                assert(0 <= spd * delta_time <= 100_000_000_000_000) by (nonlinear_arith)
                    requires
                        0 <= spd <= 1_000_000_000,
                        0 <= delta_time <= 100_000,
                ;
            }
            let k = spd * delta_time;
            proof {
                assert(0 <= qx * k <= 100_000_000_000_000_000 && 0 <= qy * k
                    <= 100_000_000_000_000_000) by (nonlinear_arith)
                    requires
                        0 <= qx <= 1000,
                        0 <= qy <= 1000,
                        0 <= k <= 100_000_000_000_000,
                ;
            }
            let mx = (qx * k) / 1_000_000;
            let my = (qy * k) / 1_000_000;
            proof {
                lemma_step_bound(qx as int, qy as int, k as int, mx as int, my as int);
                assert((0 - mx) * (0 - mx) == mx * mx && (0 - my) * (0 - my) == my * my)
                    by (nonlinear_arith);
                assert(is_sqrt_ceil(n2 as int, len128 as int));
                lemma_sqrt_ceil_is(n2 as int, len128 as int);
                assert(adx as int == abs((w.0 - old(self).position.0) as int));
                assert(ady as int == abs((w.1 - old(self).position.1) as int));
            }
            let nx = if dx >= 0 {
                self.position.0 + mx
            } else {
                self.position.0 - mx
            };
            let ny = if dy >= 0 {
                self.position.1 + my
            } else {
                self.position.1 - my
            };
            self.position = (nx, ny);
            self.direction = Self::vec_to_direction(dx, dy);
            self.advance_animation(delta_time);
                } else {
            self.advance_animation(delta_time);
        }
        let d2 = dist2_i128(
            w.0 as i128 - self.position.0 as i128,
            w.1 as i128 - self.position.1 as i128,
        );
        if d2 < 25_000_000 {
            p.remove(0);
            if p.len() == 0 {
                self.stop();
                return ;
            }
        }
        self.path = Some(p);
    }

    /// The compass facing of a movement vector; a zero vector keeps the
    /// current facing.
    pub fn vec_to_direction(dx: i64, dy: i64) -> (d: Direction)
        ensures
            !(dx == 0 && dy == 0) ==> d == dir_of(dx as int, dy as int),
            (dx == 0 && dy == 0) ==> d == Direction::South,
    {
        if dx == 0 && dy == 0 {
            return Direction::South;
        }
        let dxw = dx as i128;
        let dyw = dy as i128;
        let c23 = 920_505 * dyw - 390_731 * dxw;
        let c68 = 374_607 * dyw - 927_184 * dxw;
        let c113 = -(390_731 * dyw) - 920_505 * dxw;
        let c158 = -(927_184 * dyw) - 374_607 * dxw;
        if c23 >= 0 && c68 < 0 {
            Direction::SouthEast
        } else if c68 >= 0 && c113 < 0 {
            Direction::South
        } else if c113 >= 0 && c158 < 0 {
            Direction::SouthWest
        } else if c158 >= 0 && c23 > 0 {
            Direction::West
        } else if c23 <= 0 && c68 > 0 {
            Direction::NorthWest
        } else if c68 <= 0 && c113 > 0 {
            Direction::North
        } else if c113 <= 0 && c158 > 0 {
            Direction::NorthEast
        } else {
            Direction::East
        }
    }

    /// Advances the walk animation by one tick of `dt` milliseconds.
    fn advance_animation(&mut self, dt: i64)
        requires
            old(self).animation_index < 8,
            0 <= old(self).animation_timer <= 4_000_000_000_000_000,
            1 <= old(self).animation_speed <= 1_000_000_000,
            0 <= dt <= 100_000,
        ensures
            ({
                let anim = anim_next(
                    old(self).animation_index as int,
                    old(self).animation_timer as int,
                    old(self).animation_speed as int,
                    dt as int,
                );
                *final(self) == (Character {
                    animation_index: anim.0 as usize,
                    animation_timer: anim.1 as i64,
                    ..*old(self)
                }) && final(self).animation_index < 8 && 0 <= final(self).animation_timer
                    <= 4_000_000_000_000_000
            }),
    {
        let mut t = self.animation_timer + dt;
        if t > 4_000_000_000_000_000 {
            t = 4_000_000_000_000_000;
        }
        if t >= self.animation_speed {
            self.animation_timer = t - self.animation_speed;
            self.animation_index = (self.animation_index + 1) % 8;
        } else {
            self.animation_timer = t;
        }
    }
}

} // verus!
