use rusty_roguelike::map::{GameMap, TileType};
use rusty_roguelike::pathfinding::a_star_search;
use rusty_roguelike::rect::Rect;

fn open_map(w: i32, h: i32) -> GameMap {
    let size = Rect::new(0, 0, w, h);
    let n = (w * h) as usize;
    GameMap {
        size,
        tiles: vec![TileType::Floor; n],
        rooms: Vec::new(),
        revealed_tiles: vec![false; n],
        visible_tiles: vec![false; n],
        blocked: vec![false; n],
        tile_content: vec![Vec::new(); n],
    }
}

fn assert_valid_walk(map: &GameMap, path: &[usize], start: usize, goal: usize) {
    assert!(!path.is_empty());
    assert_eq!(path[0], start);
    assert_eq!(*path.last().unwrap(), goal);
    let w = map.size.width();
    for k in 0..path.len() - 1 {
        let (a, b) = (path[k] as i32, path[k + 1] as i32);
        let (ax, ay) = (a % w, a / w);
        let (bx, by) = (b % w, b / w);
        assert!((ax - bx).abs() <= 1 && (ay - by).abs() <= 1);
        assert!((ax, ay) != (bx, by));
        assert!(!map.blocked[path[k + 1]], "walked onto blocked tile");
    }
}

#[test]
fn search_finds_a_walk_on_an_open_map() {
    let map = open_map(8, 8);
    let start = map.xy_idx(0, 0);
    let goal = map.xy_idx(7, 7);
    let path = a_star_search(&map, start, goal).expect("open map must have a route");
    assert_valid_walk(&map, &path, start, goal);
    // with diagonal steps the shortest walk takes 7 moves
    assert_eq!(path.len(), 8);
}

#[test]
fn search_routes_around_a_wall() {
    let mut map = open_map(7, 7);
    // vertical barrier at x == 3 with a gap at the bottom row
    for y in 0..6 {
        let idx = map.xy_idx(3, y);
        map.tiles[idx] = TileType::Wall;
        map.blocked[idx] = true;
    }
    let start = map.xy_idx(0, 0);
    let goal = map.xy_idx(6, 0);
    let path = a_star_search(&map, start, goal).expect("gap leaves a route");
    assert_valid_walk(&map, &path, start, goal);
    assert!(path.iter().any(|&i| (i as i32) / 7 >= 5), "must detour to the gap");
}

#[test]
fn search_reports_no_route_through_a_full_barrier() {
    let mut map = open_map(7, 7);
    for y in 0..7 {
        let idx = map.xy_idx(3, y);
        map.tiles[idx] = TileType::Wall;
        map.blocked[idx] = true;
    }
    let start = map.xy_idx(0, 0);
    let goal = map.xy_idx(6, 6);
    assert!(a_star_search(&map, start, goal).is_none());
}

#[test]
fn search_from_a_tile_to_itself_is_the_single_tile() {
    let map = open_map(4, 4);
    let start = map.xy_idx(2, 2);
    let path = a_star_search(&map, start, start).expect("trivial route");
    assert_eq!(path, vec![start]);
}

#[test]
fn search_leaves_a_blocked_start_tile() {
    // an actor searches from its own, occupied tile
    let mut map = open_map(5, 5);
    let start = map.xy_idx(1, 1);
    map.blocked[start] = true;
    let goal = map.xy_idx(4, 4);
    let path = a_star_search(&map, start, goal).expect("route from occupied tile");
    assert_valid_walk(&map, &path, start, goal);
}

#[test]
fn exits_list_neighbors_with_weighted_costs() {
    let mut map = open_map(5, 5);
    let blocked_idx = map.xy_idx(1, 2);
    map.blocked[blocked_idx] = true;
    let exits = map.get_available_exits(map.xy_idx(2, 2));
    // 8 neighbors minus the blocked one
    assert_eq!(exits.len(), 7);
    for &(idx, cost) in &exits {
        let w = map.size.width();
        let (x, y) = ((idx as i32) % w, (idx as i32) / w);
        let diagonal = x != 2 && y != 2;
        assert_eq!(cost, if diagonal { 145 } else { 100 });
        assert!(!map.blocked[idx]);
    }
    // corner tiles have three neighbors
    let corner = map.get_available_exits(map.xy_idx(0, 0));
    assert_eq!(corner.len(), 3);
}

#[test]
fn pathing_distance_is_squared_euclidean() {
    let map = open_map(10, 10);
    let a = map.xy_idx(1, 1);
    let b = map.xy_idx(4, 5);
    assert_eq!(map.get_pathing_distance(a, b), 9 + 16);
    assert_eq!(map.get_pathing_distance(a, a), 0);
}
