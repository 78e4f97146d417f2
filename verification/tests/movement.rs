use isonav::character::Character;
use isonav::character::CharacterData;
use isonav::character::Direction;
use isonav::grid::Grid;

fn actor_at(grid: &Grid, cell: (i32, i32)) -> Character {
    let data = CharacterData {
        name: String::from("walker"),
        speed: 150_000,
        run_speed: 300_000,
    };
    Character::new(data, grid.get_coord_from_grid(cell.0, cell.1))
}

#[test]
fn new_actor_is_idle_facing_south() {
    let grid = Grid::new();
    let c = actor_at(&grid, (20, 20));
    assert!(c.path.is_none());
    assert!(c.target.is_none());
    assert_eq!(c.direction, Direction::South);
    assert_eq!(c.animation_index, 0);
    assert!(!c.is_running);
}

#[test]
fn three_waypoint_path_reaches_idle_without_overshoot() {
    let grid = Grid::new();
    let mut c = actor_at(&grid, (20, 20));
    let path = vec![(20, 21), (21, 21), (21, 22)];
    c.set_path(Some(path), Some((21, 22)));
    // 150 px/s at 16 ms per tick: at most 2.4 px (2400 milli-pixels)
    // of movement each tick.
    let max_step: i64 = 150_000 * 16 / 1_000;
    let mut ticks = 0;
    while c.path.is_some() && ticks < 10_000 {
        let before = c.position;
        c.update(&grid, 16);
        let dx = c.position.0 - before.0;
        let dy = c.position.1 - before.1;
        assert!(dx * dx + dy * dy <= max_step * max_step);
        ticks += 1;
    }
    // Idle: path and target cleared together, animation rewound.
    assert!(c.path.is_none());
    assert!(c.target.is_none());
    assert!(!c.is_running);
    assert_eq!(c.animation_index, 0);
    assert!(ticks < 10_000);
    // The actor stopped within the arrival threshold (5 pixels) of the
    // final waypoint.
    let goal = grid.get_coord_from_grid(21, 22);
    let dx = c.position.0 - goal.0;
    let dy = c.position.1 - goal.1;
    assert!(dx * dx + dy * dy < 25_000_000);
}

#[test]
fn update_with_no_path_only_rewinds_animation() {
    let grid = Grid::new();
    let mut c = actor_at(&grid, (20, 20));
    let before = c.position;
    c.update(&grid, 16);
    assert_eq!(c.position, before);
    assert!(c.path.is_none());
    assert!(c.target.is_none());
    assert_eq!(c.animation_index, 0);
}

#[test]
fn stop_clears_path_target_and_running_together() {
    let grid = Grid::new();
    let mut c = actor_at(&grid, (20, 20));
    c.set_path(Some(vec![(21, 21)]), Some((21, 21)));
    c.is_running = true;
    c.stop();
    assert!(c.path.is_none());
    assert!(c.target.is_none());
    assert!(!c.is_running);
    assert_eq!(c.animation_index, 0);
}

#[test]
fn running_actor_moves_faster_but_bounded() {
    let grid = Grid::new();
    let mut walk = actor_at(&grid, (20, 20));
    let mut run = actor_at(&grid, (20, 20));
    walk.set_path(Some(vec![(24, 24)]), Some((24, 24)));
    run.set_path(Some(vec![(24, 24)]), Some((24, 24)));
    run.is_running = true;
    let start = walk.position;
    walk.update(&grid, 16);
    run.update(&grid, 16);
    let d2 = |p: (i64, i64)| {
        let dx = p.0 - start.0;
        let dy = p.1 - start.1;
        dx * dx + dy * dy
    };
    assert!(d2(run.position) > d2(walk.position));
    let max_run_step: i64 = 300_000 * 16 / 1_000;
    assert!(d2(run.position) <= max_run_step * max_run_step);
}

#[test]
fn double_click_window_is_300ms() {
    let grid = Grid::new();
    let mut c = actor_at(&grid, (20, 20));
    assert!(!c.is_double_click(1_000));
    assert!(c.is_double_click(1_200));
    assert!(!c.is_double_click(1_600));
    assert_eq!(c.last_click_time, 1_600);
}

#[test]
fn facing_follows_movement_vector() {
    assert_eq!(Character::vec_to_direction(1_000, 0), Direction::East);
    assert_eq!(Character::vec_to_direction(1_000, 1_000), Direction::SouthEast);
    assert_eq!(Character::vec_to_direction(0, 1_000), Direction::South);
    assert_eq!(Character::vec_to_direction(-1_000, 1_000), Direction::SouthWest);
    assert_eq!(Character::vec_to_direction(-1_000, 0), Direction::West);
    assert_eq!(Character::vec_to_direction(-1_000, -1_000), Direction::NorthWest);
    assert_eq!(Character::vec_to_direction(0, -1_000), Direction::North);
    assert_eq!(Character::vec_to_direction(1_000, -1_000), Direction::NorthEast);
    // The East sector spans 338 to 23 degrees: 22 degrees is still
    // East, 23.03 degrees already SouthEast.
    assert_eq!(Character::vec_to_direction(10_000, 4_040), Direction::East);
    assert_eq!(Character::vec_to_direction(10_000, 4_250), Direction::SouthEast);
    // A zero vector keeps a fixed fallback facing.
    assert_eq!(Character::vec_to_direction(0, 0), Direction::South);
}

#[test]
fn animation_advances_modulo_eight_preserving_phase() {
    let grid = Grid::new();
    let mut c = actor_at(&grid, (20, 20));
    c.set_animation_speed(100);
    c.set_path(Some(vec![(24, 24)]), Some((24, 24)));
    // 7 ticks of 30 ms: the 100 ms period is crossed at 120, 210 ms,
    // with the remainder carried over.
    let mut frames = Vec::new();
    for _ in 0..7 {
        c.update(&grid, 30);
        frames.push(c.animation_index);
    }
    assert_eq!(frames, vec![0, 0, 0, 1, 1, 1, 2]);
}
