//! Tests for the navigation grid and the A* pathfinding engine.

use open_miami::components::Position;
use open_miami::ecs::Wall;
use open_miami::pathfinding::{AStarNode, GridCoord, NavigationGrid};

fn dist_sq(a: Position, b: Position) -> i128 {
    let dx = (b.x - a.x) as i128;
    let dy = (b.y - a.y) as i128;
    dx * dx + dy * dy
}

#[test]
fn test_grid_coord_from_world_pos() {
    let coord = GridCoord::from_world_pos(125000, 75000);
    assert_eq!(coord.i, 2);
    assert_eq!(coord.j, 1);

    let coord = GridCoord::from_world_pos(0, 0);
    assert_eq!(coord.i, 0);
    assert_eq!(coord.j, 0);

    let coord = GridCoord::from_world_pos(1999000, 1999000);
    assert_eq!(coord.i, 39);
    assert_eq!(coord.j, 39);
}

#[test]
fn test_grid_coord_to_world_pos() {
    let coord = GridCoord::new(2, 1);
    let pos = coord.to_world_pos();
    assert_eq!(pos.x, 125000);
    assert_eq!(pos.y, 75000);

    let coord = GridCoord::new(0, 0);
    let pos = coord.to_world_pos();
    assert_eq!(pos.x, 25000);
    assert_eq!(pos.y, 25000);
}

#[test]
fn test_grid_coord_round_trip() {
    let source = Position::new(325000, 175000);
    let coord = GridCoord::from_world_pos(source.x, source.y);
    let world_pos = coord.to_world_pos();

    assert_eq!(coord.i, 6);
    assert_eq!(coord.j, 3);
    assert_eq!(world_pos.x, 325000);
    assert_eq!(world_pos.y, 175000);
}

#[test]
fn test_grid_round_trip_every_valid_cell() {
    for i in 0..40 {
        for j in 0..40 {
            let c = GridCoord::new(i, j);
            let p = c.to_world_pos();
            let back = GridCoord::from_world_pos(p.x, p.y);
            assert_eq!(back, c);
        }
    }
}

#[test]
fn test_manhattan_distance() {
    let a = GridCoord::new(0, 0);
    let b = GridCoord::new(3, 4);
    assert_eq!(a.manhattan_distance(&b), 7);

    let c = GridCoord::new(5, 5);
    let d = GridCoord::new(2, 1);
    assert_eq!(c.manhattan_distance(&d), 7);
}

#[test]
fn test_distance_squared() {
    let a = GridCoord::new(0, 0);
    let b = GridCoord::new(3, 4);
    assert_eq!(a.distance_squared(&b), 25);
}

#[test]
fn test_neighbors() {
    let coord = GridCoord::new(5, 5);
    let neighbors = coord.neighbors();

    assert_eq!(neighbors.len(), 4);
    assert!(neighbors.contains(&GridCoord::new(4, 5)));
    assert!(neighbors.contains(&GridCoord::new(6, 5)));
    assert!(neighbors.contains(&GridCoord::new(5, 4)));
    assert!(neighbors.contains(&GridCoord::new(5, 6)));
}

#[test]
fn test_is_valid() {
    assert!(GridCoord::new(0, 0).is_valid());
    assert!(GridCoord::new(39, 39).is_valid());
    assert!(!GridCoord::new(-1, 0).is_valid());
    assert!(!GridCoord::new(0, -1).is_valid());
    assert!(!GridCoord::new(40, 0).is_valid());
    assert!(!GridCoord::new(0, 40).is_valid());
}

#[test]
fn test_navigation_grid_no_walls() {
    let grid = NavigationGrid::new(&vec![]);

    assert!(grid.is_walkable(&GridCoord::new(0, 0)));
    assert!(grid.is_walkable(&GridCoord::new(10, 10)));
    assert!(grid.is_walkable(&GridCoord::new(39, 39)));
}

#[test]
fn test_navigation_grid_with_walls() {
    let walls = vec![Wall::new(200000, 200000, 400000, 20000)];
    let grid = NavigationGrid::new(&walls);

    let wall_cell = GridCoord::from_world_pos(300000, 210000);
    assert!(!grid.is_walkable(&wall_cell));

    let free_cell = GridCoord::from_world_pos(100000, 100000);
    assert!(grid.is_walkable(&free_cell));
}

#[test]
fn test_find_path_straight_line() {
    let grid = NavigationGrid::new(&vec![]);
    let start = Position::new(25000, 25000);
    let goal = Position::new(175000, 25000);

    let path = grid.find_path(start, goal);
    assert!(path.is_some());

    let path = path.unwrap();
    assert!(!path.is_empty());
}

#[test]
fn test_find_path_same_position() {
    let grid = NavigationGrid::new(&vec![]);
    let pos = Position::new(100000, 100000);

    let path = grid.find_path(pos, pos);
    assert!(path.is_some());
    assert_eq!(path.unwrap().len(), 0);
}

#[test]
fn test_find_path_around_obstacle() {
    let walls = vec![Wall::new(250000, 0, 20000, 300000)];
    let grid = NavigationGrid::new(&walls);

    let start = Position::new(100000, 150000);
    let goal = Position::new(400000, 150000);

    let path = grid.find_path(start, goal);
    assert!(path.is_some());

    let path = path.unwrap();
    assert!(!path.is_empty());
}

#[test]
fn test_find_path_blocked_start() {
    let walls = vec![Wall::new(0, 0, 100000, 100000)];
    let grid = NavigationGrid::new(&walls);

    let start = Position::new(50000, 50000);
    let goal = Position::new(500000, 500000);

    let path = grid.find_path(start, goal);
    assert!(path.is_none());
}

#[test]
fn test_find_path_blocked_goal() {
    let walls = vec![Wall::new(400000, 400000, 100000, 100000)];
    let grid = NavigationGrid::new(&walls);

    let start = Position::new(50000, 50000);
    let goal = Position::new(450000, 450000);

    let path = grid.find_path(start, goal);
    assert!(path.is_none());
}

#[test]
fn test_find_path_completely_blocked() {
    let walls = vec![
        Wall::new(300000, 300000, 200000, 10000),
        Wall::new(300000, 490000, 200000, 10000),
        Wall::new(300000, 300000, 10000, 200000),
        Wall::new(490000, 300000, 10000, 200000),
    ];
    let grid = NavigationGrid::new(&walls);

    let start = Position::new(100000, 100000);
    let goal = Position::new(400000, 400000);

    let path = grid.find_path(start, goal);
    if let Some(p) = path {
        assert!(!p.is_empty());
    }
}

#[test]
fn test_get_next_waypoint() {
    let grid = NavigationGrid::new(&vec![]);
    let start = Position::new(25000, 25000);
    let goal = Position::new(475000, 25000);

    let waypoint = grid.get_next_waypoint(start, goal);
    assert!(waypoint.is_some());

    let wp = waypoint.unwrap();
    assert!(wp.x > start.x);
}

#[test]
fn test_get_next_waypoint_at_goal() {
    let grid = NavigationGrid::new(&vec![]);
    let pos = Position::new(100000, 100000);

    let waypoint = grid.get_next_waypoint(pos, pos);
    assert!(waypoint.is_some());

    let wp = waypoint.unwrap();
    assert_eq!(wp.x, pos.x);
    assert_eq!(wp.y, pos.y);
}

#[test]
fn test_complex_maze_path() {
    let walls = vec![
        Wall::new(200000, 0, 20000, 300000),
        Wall::new(400000, 200000, 20000, 400000),
        Wall::new(0, 500000, 300000, 20000),
        Wall::new(500000, 300000, 300000, 20000),
    ];
    let grid = NavigationGrid::new(&walls);

    let start = Position::new(50000, 50000);
    let goal = Position::new(700000, 700000);

    let path = grid.find_path(start, goal);

    assert!(path.is_some());
    let path = path.unwrap();

    if !path.is_empty() {
        let first = path.first().unwrap();
        let last = path.last().unwrap();

        let dist_first = dist_sq(*first, goal);
        let dist_last = dist_sq(*last, goal);
        assert!(dist_last <= dist_first);
    }
}

#[test]
fn test_astar_node_ordering() {
    let node1 = AStarNode {
        coord: GridCoord::new(0, 0),
        f_score: 10,
    };
    let node2 = AStarNode {
        coord: GridCoord::new(1, 1),
        f_score: 5,
    };

    assert!(node2 > node1);
}

#[test]
fn test_grid_boundary_cells() {
    let grid = NavigationGrid::new(&vec![]);

    assert!(grid.is_walkable(&GridCoord::new(0, 0)));
    assert!(grid.is_walkable(&GridCoord::new(39, 0)));
    assert!(grid.is_walkable(&GridCoord::new(0, 39)));
    assert!(grid.is_walkable(&GridCoord::new(39, 39)));

    assert!(!GridCoord::new(-1, 0).is_valid());
    assert!(!GridCoord::new(40, 0).is_valid());
    assert!(!GridCoord::new(0, -1).is_valid());
    assert!(!GridCoord::new(0, 40).is_valid());
}

#[test]
fn test_path_consistency() {
    let walls = vec![Wall::new(250000, 250000, 100000, 100000)];
    let grid = NavigationGrid::new(&walls);

    let start = Position::new(100000, 100000);
    let goal = Position::new(600000, 600000);

    let path1 = grid.find_path(start, goal);
    let path2 = grid.find_path(start, goal);

    assert_eq!(path1.is_some(), path2.is_some());
    if let (Some(p1), Some(p2)) = (path1, path2) {
        assert_eq!(p1.len(), p2.len());
    }
}

#[test]
fn test_corridor_path_reaches_goal_cell() {
    // A straight corridor with no walls: the path is non-empty and its
    // last point lies within one cell of the goal.
    let grid = NavigationGrid::new(&vec![]);
    let start = Position::new(25000, 25000);
    let goal = Position::new(475000, 25000);

    let path = grid.find_path(start, goal).unwrap();
    assert!(!path.is_empty());
    let last = path.last().unwrap();
    assert!((last.x - goal.x).abs() <= 50000);
    assert!((last.y - goal.y).abs() <= 50000);
}

#[test]
fn test_separating_wall_blocked_goal_is_absent() {
    // A vertical wall fully separating two rooms with no gap: a goal
    // inside the wall's footprint yields no path at all.
    let walls = vec![Wall::new(1000000, 0, 40000, 2000000)];
    let grid = NavigationGrid::new(&walls);

    let start = Position::new(200000, 200000);
    let goal = Position::new(1020000, 500000);

    assert!(grid.find_path(start, goal).is_none());
}

#[test]
fn test_string_pull_keeps_endpoints_and_count() {
    let walls = vec![Wall::new(200000, 0, 20000, 300000)];
    let grid = NavigationGrid::new(&walls);

    let path = vec![
        Position::new(25000, 25000),
        Position::new(25000, 75000),
        Position::new(25000, 125000),
        Position::new(75000, 125000),
        Position::new(125000, 125000),
    ];
    let pulled = grid.string_pull_path(path.clone());
    assert!(pulled.len() <= path.len());
    assert_eq!(pulled.first(), path.first());
    assert_eq!(pulled.last(), path.last());
}

#[test]
fn test_short_path_unchanged_by_string_pull() {
    let grid = NavigationGrid::new(&vec![]);
    let path = vec![Position::new(25000, 25000), Position::new(75000, 25000)];
    let pulled = grid.string_pull_path(path.clone());
    assert_eq!(pulled, path);
}
