use isonav::grid::Grid;
use isonav::navigate::NavigationOutcome;

#[test]
fn world_of_origin_cell_is_exact() {
    let grid = Grid::new();
    // Cell (1, 17) sits at the transform's origin: only the vertical
    // offset (10 pixels) and the world scale (3) remain.
    assert_eq!(grid.get_coord_from_grid(1, 17), (0, 30_000));
    assert_eq!(grid.get_grid_from_coord((0, 30_000)), (1, 17));
}

#[test]
fn world_of_unit_cell_is_exact() {
    let grid = Grid::new();
    // One step along the x axis of the grid: stretch by 38.810 px,
    // rotate, shear, offset, and scale by 3, in milli-pixels.
    assert_eq!(grid.get_coord_from_grid(2, 17), (60_090, 60_042));
}

#[test]
fn grid_world_round_trip_on_cells() {
    let grid = Grid::new();
    for x in -50..=80i32 {
        for y in -50..=80i32 {
            let w = grid.get_coord_from_grid(x, y);
            assert_eq!(grid.get_grid_from_coord(w), (x, y));
        }
    }
}

#[test]
fn blocked_cells_are_not_walkable() {
    let mut grid = Grid::new();
    grid.update_blocked_nodes(vec![(20, 20), (25, 24)]);
    assert!(!grid.is_node_walkable((20, 20)));
    assert!(!grid.is_node_walkable((25, 24)));
    assert!(grid.is_node_walkable((21, 20)));
}

#[test]
fn out_of_bounds_cells_are_never_walkable() {
    let mut grid = Grid::new();
    // Off to the right: x - y >= 16.
    assert!(!grid.is_node_walkable((40, 20)));
    // Off to the left: y - x >= 16.
    assert!(!grid.is_node_walkable((20, 40)));
    // Off the bottom: x + y > 64.
    assert!(!grid.is_node_walkable((40, 30)));
    // Off the top: x + y <= 17.
    assert!(!grid.is_node_walkable((8, 9)));
    // Blocking them changes nothing: still not walkable.
    grid.update_blocked_nodes(vec![(40, 20), (20, 40)]);
    assert!(!grid.is_node_walkable((40, 20)));
    assert!(!grid.is_node_walkable((20, 40)));
}

#[test]
fn boundary_inequalities_are_exact() {
    let grid = Grid::new();
    assert!(grid.is_node_walkable((9, 9))); // x + y == 18 > 17
    assert!(!grid.is_node_walkable((9, 8))); // x + y == 17
    assert!(grid.is_node_walkable((32, 32))); // x + y == 64
    assert!(!grid.is_node_walkable((33, 32))); // x + y == 65
    assert!(grid.is_node_walkable((24, 9))); // x - y == 15
    assert!(!grid.is_node_walkable((25, 9))); // x - y == 16
    assert!(grid.is_node_walkable((9, 24))); // y - x == 15
    assert!(!grid.is_node_walkable((9, 25))); // y - x == 16
}

#[test]
fn corner_cut_diagonal_is_excluded() {
    let mut grid = Grid::new();
    grid.update_blocked_nodes(vec![(21, 20), (20, 21)]);
    // The diagonal cell itself stays walkable...
    assert!(grid.is_node_walkable((21, 21)));
    // ...but it is not a neighbor of (20, 20) while both flanking
    // orthogonal cells are blocked.
    let neighbors = grid.get_neighbors((20, 20));
    assert!(!neighbors.contains(&(21, 21)));
    assert!(neighbors.contains(&(19, 19)));
    // With only one flanking obstacle the diagonal move is allowed.
    grid.update_blocked_nodes(vec![(21, 20)]);
    let neighbors = grid.get_neighbors((20, 20));
    assert!(neighbors.contains(&(21, 21)));
}

#[test]
fn pathfind_same_cell_gives_singleton() {
    let grid = Grid::new();
    assert!(grid.is_node_walkable((20, 20)));
    let path = grid.pathfind((20, 20), (20, 20)).unwrap();
    assert_eq!(path, vec![(20, 20)]);
}

#[test]
fn pathfind_clear_corridor_length_is_chebyshev() {
    let grid = Grid::new();
    // Diagonal corridor: Chebyshev distance 4, so 5 cells.
    let path = grid.pathfind((20, 20), (24, 24)).unwrap();
    assert_eq!(path.first(), Some(&(20, 20)));
    assert_eq!(path.last(), Some(&(24, 24)));
    assert_eq!(path.len(), 5);
    // Straight corridor: Chebyshev distance 6, so 7 cells.
    let path = grid.pathfind((20, 20), (20, 26)).unwrap();
    assert_eq!(path.len(), 7);
    for pair in path.windows(2) {
        assert!((pair[0].0 - pair[1].0).abs() <= 1);
        assert!((pair[0].1 - pair[1].1).abs() <= 1);
    }
}

#[test]
fn pathfind_enclosed_goal_is_none() {
    let mut grid = Grid::new();
    let goal = (20, 20);
    let ring: Vec<(i32, i32)> = vec![
        (19, 19),
        (20, 19),
        (21, 19),
        (19, 20),
        (21, 20),
        (19, 21),
        (20, 21),
        (21, 21),
    ];
    grid.update_blocked_nodes(ring);
    assert!(grid.is_node_walkable(goal));
    assert_eq!(grid.pathfind((25, 25), goal), None);
}

#[test]
fn pathfind_routes_around_obstacle() {
    let mut grid = Grid::new();
    grid.update_blocked_nodes(vec![(20, 20)]);
    let path = grid.pathfind((19, 19), (21, 21)).unwrap();
    assert_eq!(path.first(), Some(&(19, 19)));
    assert_eq!(path.last(), Some(&(21, 21)));
    assert!(!path.contains(&(20, 20)));
    // The only two-step route led through the obstacle, so four cells
    // is the shortest detour.
    assert_eq!(path.len(), 4);
    // Blocking the flanking corners as well forces a wider detour.
    grid.update_blocked_nodes(vec![(20, 20), (20, 19), (19, 20)]);
    let path = grid.pathfind((19, 19), (21, 21)).unwrap();
    assert_eq!(path.first(), Some(&(19, 19)));
    assert_eq!(path.last(), Some(&(21, 21)));
    assert!(!path.contains(&(20, 20)));
    assert!(!path.contains(&(20, 19)));
    assert!(!path.contains(&(19, 20)));
    assert!(path.len() >= 5);
}

#[test]
fn update_blocked_nodes_replaces_wholesale() {
    let mut grid = Grid::new();
    grid.update_blocked_nodes(vec![(20, 20)]);
    assert!(!grid.is_node_walkable((20, 20)));
    grid.update_blocked_nodes(vec![(21, 21)]);
    assert!(grid.is_node_walkable((20, 20)));
    assert!(!grid.is_node_walkable((21, 21)));
}

#[test]
fn closest_accessible_position_prefers_near_cells() {
    let mut grid = Grid::new();
    grid.update_blocked_nodes(vec![(20, 20)]);
    let click = grid.get_coord_from_grid(20, 20);
    let found = grid.find_closest_accessible_position(click).unwrap();
    // Under the sheared transform the nearest cell centers are the
    // diagonal neighbors along the thin axis of the grid.
    assert!(found == (19, 19) || found == (21, 21));
    // And the found cell is never farther than any other candidate:
    // compare against one orthogonal neighbor by squared world
    // distance.
    let wd2 = |c: (i32, i32)| {
        let w = grid.get_coord_from_grid(c.0, c.1);
        let dx = (w.0 - click.0) as i128;
        let dy = (w.1 - click.1) as i128;
        dx * dx + dy * dy
    };
    assert!(wd2(found) <= wd2((21, 20)));
    assert!(wd2(found) <= wd2((20, 21)));
}

#[test]
fn closest_accessible_position_empty_region_is_none() {
    let grid = Grid::new();
    // Around cell (0, 0) every cell of the radius-5 window fails the
    // boundary inequalities.
    let far = grid.get_coord_from_grid(0, 0);
    assert_eq!(grid.find_closest_accessible_position(far), None);
}

#[test]
fn n_closest_walkable_returns_sorted_distinct_cells() {
    let grid = Grid::new();
    let center = grid.get_coord_from_grid(20, 20);
    let cells = grid.find_n_closest_walkable_grids(center, 3).unwrap();
    assert_eq!(cells.len(), 3);
    // The center cell first, then the distance-one cells in scan
    // order.
    assert_eq!(cells, vec![(20, 20), (19, 20), (20, 19)]);
    for i in 0..cells.len() {
        for j in 0..cells.len() {
            if i != j {
                assert_ne!(cells[i], cells[j]);
            }
        }
    }
    let d2 = |c: (i32, i32)| (c.0 - 20) * (c.0 - 20) + (c.1 - 20) * (c.1 - 20);
    for pair in cells.windows(2) {
        assert!(d2(pair[0]) <= d2(pair[1]));
    }
}

#[test]
fn n_closest_walkable_with_no_candidates_is_none() {
    let grid = Grid::new();
    // Around cell (-5, -5) even the radius-10 window stays above the
    // x + y > 17 boundary, so nothing is walkable.
    let far = grid.get_coord_from_grid(-5, -5);
    assert_eq!(grid.find_n_closest_walkable_grids(far, 3), None);
}

#[test]
fn n_closest_walkable_caps_at_available_cells() {
    let mut grid = Grid::new();
    // Leave exactly two walkable cells in the radius-10 window around
    // (9, 9) by blocking every other cell of that window.
    let mut blocked = Vec::new();
    for x in -1..=19 {
        for y in -1..=19 {
            if (x, y) != (9, 9) && (x, y) != (10, 9) {
                blocked.push((x, y));
            }
        }
    }
    grid.update_blocked_nodes(blocked);
    let center = grid.get_coord_from_grid(9, 9);
    let cells = grid.find_n_closest_walkable_grids(center, 5).unwrap();
    assert_eq!(cells, vec![(9, 9), (10, 9)]);
}

#[test]
fn closest_walkable_node_in_rect() {
    let mut grid = Grid::new();
    let lo = grid.get_coord_from_grid(19, 19);
    let hi = grid.get_coord_from_grid(21, 21);
    // Outside target: the nearest box cell in scan order wins.
    let found = grid.find_closest_walkable_node((10, 10), lo, hi).unwrap();
    assert_eq!(found, (19, 19));
    // Blocked target inside the box: the first of the distance-one
    // cells in scan order wins.
    grid.update_blocked_nodes(vec![(20, 20)]);
    let found = grid.find_closest_walkable_node((20, 20), lo, hi).unwrap();
    assert_eq!(found, (19, 20));
}

#[test]
fn plan_navigation_walkable_click_gives_path() {
    let grid = Grid::new();
    let player = grid.get_coord_from_grid(20, 20);
    let click = grid.get_coord_from_grid(24, 24);
    match grid.plan_navigation(click, false, None, None, player) {
        NavigationOutcome::Path(path, goal) => {
            assert_eq!(goal, (24, 24));
            assert_eq!(path.first(), Some(&(20, 20)));
            assert_eq!(path.last(), Some(&(24, 24)));
        }
        _ => panic!("expected a path"),
    }
}

#[test]
fn plan_navigation_unwalkable_plain_click_stops() {
    let grid = Grid::new();
    let player = grid.get_coord_from_grid(20, 20);
    // Outside the diamond: x + y <= 17.
    let click = grid.get_coord_from_grid(5, 5);
    assert!(matches!(
        grid.plan_navigation(click, false, None, None, player),
        NavigationOutcome::Stopped
    ));
}

#[test]
fn plan_navigation_same_target_is_unchanged() {
    let grid = Grid::new();
    let player = grid.get_coord_from_grid(20, 20);
    let click = grid.get_coord_from_grid(24, 24);
    assert!(matches!(
        grid.plan_navigation(click, false, None, Some((24, 24)), player),
        NavigationOutcome::Unchanged
    ));
    // Clicking the cell the actor stands on changes nothing either.
    let here = grid.get_coord_from_grid(20, 20);
    assert!(matches!(
        grid.plan_navigation(here, false, None, None, player),
        NavigationOutcome::Unchanged
    ));
}

#[test]
fn plan_navigation_item_click_snaps_to_walkable() {
    let mut grid = Grid::new();
    grid.update_blocked_nodes(vec![(24, 24)]);
    let player = grid.get_coord_from_grid(20, 20);
    let click = grid.get_coord_from_grid(24, 24);
    match grid.plan_navigation(click, true, None, None, player) {
        NavigationOutcome::Path(path, goal) => {
            assert!(goal != (24, 24));
            assert!(grid.is_node_walkable(goal));
            assert_eq!(path.last(), Some(&goal));
        }
        _ => panic!("expected a path to a nearby walkable cell"),
    }
}

#[test]
fn plan_navigation_transition_zone_snaps_inside() {
    let mut grid = Grid::new();
    grid.update_blocked_nodes(vec![(21, 21)]);
    let player = grid.get_coord_from_grid(19, 19);
    let click = grid.get_coord_from_grid(21, 21);
    let rect = (grid.get_coord_from_grid(20, 20), grid.get_coord_from_grid(22, 22));
    match grid.plan_navigation(click, false, Some(rect), None, player) {
        NavigationOutcome::Path(path, goal) => {
            // The goal lies inside the zone's cell box, nearest to the
            // clicked cell: the first distance-one neighbor in scan
            // order.
            assert_eq!(goal, (20, 21));
            assert_eq!(path.last(), Some(&(20, 21)));
        }
        _ => panic!("expected a path into the zone"),
    }
}

#[test]
fn spawn_positions_are_world_centers_of_nearest_cells() {
    let grid = Grid::new();
    let center = grid.get_coord_from_grid(20, 20);
    let spawns = grid.generate_spawn_positions(center, 3).unwrap();
    let cells = grid.find_n_closest_walkable_grids(center, 3).unwrap();
    assert_eq!(spawns.len(), 3);
    for (w, c) in spawns.iter().zip(cells.iter()) {
        assert_eq!(*w, grid.get_coord_from_grid(c.0, c.1));
    }
    // An empty neighborhood yields no spawn positions.
    let far = grid.get_coord_from_grid(-5, -5);
    assert_eq!(grid.generate_spawn_positions(far, 3), None);
}
