//! The navigation decision taken on a movement-issuing click: resolve
//! the clicked world position to a goal cell (directly, through the
//! item fallback search, or through the transition-zone search), skip
//! requests that change nothing, and compute the path or stop.
//!
//! The caller hands in plain values it has already derived from the
//! click: whether an item was clicked, and the world rectangle of a
//! clicked transition zone, if any.

use vstd::prelude::*;

verus! {

use crate::grid::Grid;
use crate::grid::walkable;
use crate::grid::cell_from_world;
use crate::pathfind::valid_path;
use crate::search::world_closest_in_box;
use crate::search::grid_closest_in_box;
use crate::search::no_walkable_in_box;
use crate::search::lemma_world_closest_unique;
use crate::search::lemma_grid_closest_unique;

/// What a navigation request decides for the actor that issued it.
pub enum NavigationOutcome {
    /// The request changes nothing: the goal already is the actor's
    /// target, or the actor already stands on it.
    Unchanged,
    /// The actor must stop: no walkable goal could be resolved, or no
    /// path to it was found.
    Stopped,
    /// A path to the resolved goal cell, to replace the actor's path
    /// and target.
    Path(Vec<(i32, i32)>, (i32, i32)),
}

/// What the outcome may be once the goal cell `g` is resolved: a
/// request for the current target or the current cell changes nothing;
/// otherwise either a valid path to `g` or a stop (when the search
/// found no path).
pub open spec fn outcome_for(
    blocked: Set<(i32, i32)>,
    current_target: Option<(i32, i32)>,
    player_cell: (i32, i32),
    g: (i32, i32),
    r: NavigationOutcome,
) -> bool {
    if current_target == Some(g) || player_cell == g {
        r is Unchanged
    } else {
        match r {
            NavigationOutcome::Unchanged => false,
            NavigationOutcome::Stopped => true,
            NavigationOutcome::Path(p, t) => t == g && valid_path(blocked, p@, player_cell, g)
                && p@.no_duplicates(),
        }
    }
}

impl Grid {
    /// Decides a navigation request for a click at `target_pos`
    /// (milli-pixels) by an actor standing at `player_pos` with the
    /// given current target. `clicked_item` says the click hit an
    /// item, in which case the goal snaps to the nearest walkable cell
    /// of the clicked neighborhood; `transition` carries the world
    /// rectangle of a clicked transition zone, in which case an
    /// unwalkable clicked cell snaps to the nearest walkable cell
    /// inside that zone. A plain click on an unwalkable cell, an empty
    /// zone, or a failed path search stops the actor.
    pub fn plan_navigation(
        &self,
        target_pos: (i64, i64),
        clicked_item: bool,
        transition: Option<((i64, i64), (i64, i64))>,
        current_target: Option<(i32, i32)>,
        player_pos: (i64, i64),
    ) -> (r: NavigationOutcome)
        requires
            -100_000_000_000 <= target_pos.0 <= 100_000_000_000,
            -100_000_000_000 <= target_pos.1 <= 100_000_000_000,
            -100_000_000_000 <= player_pos.0 <= 100_000_000_000,
            -100_000_000_000 <= player_pos.1 <= 100_000_000_000,
            transition matches Some(rect) ==> -100_000_000_000 <= rect.0.0 <= 100_000_000_000
                && -100_000_000_000 <= rect.0.1 <= 100_000_000_000 && -100_000_000_000 <= rect.1.0
                <= 100_000_000_000 && -100_000_000_000 <= rect.1.1 <= 100_000_000_000,
        ensures
            ({
                let tg = cell_from_world(target_pos.0 as int, target_pos.1 as int);
                let tgc = (tg.0 as i32, tg.1 as i32);
                let pcs = cell_from_world(player_pos.0 as int, player_pos.1 as int);
                let pc = (pcs.0 as i32, pcs.1 as i32);
                let lo = (tg.0 - 5, tg.1 - 5);
                let hi = (tg.0 + 5, tg.1 + 5);
                let p = (target_pos.0 as int, target_pos.1 as int);
                &&& (clicked_item ==> {
                    // Item click: the goal is the nearest walkable cell
                    // around the click, or the clicked cell itself when
                    // the neighborhood is empty.
                    &&& (forall|c: (i32, i32)|
                        world_closest_in_box(self@, lo, hi, p, c) ==> outcome_for(
                            self@,
                            current_target,
                            pc,
                            c,
                            r,
                        ))
                    &&& (no_walkable_in_box(self@, lo, hi) ==> outcome_for(
                        self@,
                        current_target,
                        pc,
                        tgc,
                        r,
                    ))
                })
                &&& (!clicked_item ==> (transition matches Some(rect) ==> {
                    let rlo = cell_from_world(rect.0.0 as int, rect.0.1 as int);
                    let rhi = cell_from_world(rect.1.0 as int, rect.1.1 as int);
                    &&& (walkable(self@, tgc) ==> outcome_for(self@, current_target, pc, tgc, r))
                    // Unwalkable click inside a transition zone: snap
                    // to the nearest walkable cell of the zone, or
                    // stop when it has none.
                    &&& (!walkable(self@, tgc) ==> (forall|c: (i32, i32)|
                        grid_closest_in_box(self@, rlo, rhi, tgc, c) ==> outcome_for(
                            self@,
                            current_target,
                            pc,
                            c,
                            r,
                        )))
                    &&& (!walkable(self@, tgc) && no_walkable_in_box(self@, rlo, rhi)
                        ==> r is Stopped)
                }))
                &&& (!clicked_item && transition is None && walkable(self@, tgc) ==> outcome_for(
                    self@,
                    current_target,
                    pc,
                    tgc,
                    r,
                ))
                // Plain click outside the walkable region.
                &&& (!clicked_item && transition is None && !walkable(self@, tgc)
                    ==> r is Stopped)
            }),
    {
        let target_grid = self.get_grid_from_coord(target_pos);
        let mut final_target = target_grid;
        if clicked_item {
            if let Some(closest) = self.find_closest_accessible_position(target_pos) {
                final_target = closest;
            }
        } else if let Some(rect) = transition {
            if !self.is_node_walkable(target_grid) {
                match self.find_closest_walkable_node(target_grid, rect.0, rect.1) {
                    Some(closest) => {
                        final_target = closest;
                    },
                    None => {
                        return NavigationOutcome::Stopped;
                    },
                }
            }
        } else if !self.is_node_walkable(target_grid) {
            return NavigationOutcome::Stopped;
        }
        proof {
            let tg = cell_from_world(target_pos.0 as int, target_pos.1 as int);
            let lo = (tg.0 - 5, tg.1 - 5);
            let hi = (tg.0 + 5, tg.1 + 5);
            let p = (target_pos.0 as int, target_pos.1 as int);
            if clicked_item {
                assert forall|c: (i32, i32)|
                    world_closest_in_box(self@, lo, hi, p, c) implies c == final_target by {
                    lemma_world_closest_unique(self@, lo, hi, p, c, final_target);
                }
            }
            match transition {
                Some(rect) => {
                    if !clicked_item && !walkable(self@, target_grid) {
                        let rlo = cell_from_world(rect.0.0 as int, rect.0.1 as int);
                        let rhi = cell_from_world(rect.1.0 as int, rect.1.1 as int);
                        assert forall|c: (i32, i32)|
                            grid_closest_in_box(self@, rlo, rhi, target_grid, c) implies c
                            == final_target by {
                            lemma_grid_closest_unique(
                                self@,
                                rlo,
                                rhi,
                                target_grid,
                                c,
                                final_target,
                            );
                        }
                    }
                },
                None => {},
            }
        }
        let same_target = match current_target {
            Some(t) => t.0 == final_target.0 && t.1 == final_target.1,
            None => false,
        };
        if same_target {
            return NavigationOutcome::Unchanged;
        }
        let player_grid = self.get_grid_from_coord(player_pos);
        if player_grid.0 == final_target.0 && player_grid.1 == final_target.1 {
            return NavigationOutcome::Unchanged;
        }
        match self.pathfind(player_grid, final_target) {
            Some(path) => NavigationOutcome::Path(path, final_target),
            None => NavigationOutcome::Stopped,
        }
    }
}

} // verus!
