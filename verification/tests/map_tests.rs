use rusty_roguelike::components::Position;
use rusty_roguelike::map::{
    apply_horizontal_tunnel, apply_room_to_map, apply_vertical_tunnel, GameMap, TileType,
};
use rusty_roguelike::rect::Rect;
use rusty_roguelike::rng::rng_seeded;
use rusty_roguelike::viewport::Viewport;
use rusty_roguelike::world::World;

fn open_map(w: i32, h: i32) -> GameMap {
    let size = Rect::new(0, 0, w, h);
    let n = (w * h) as usize;
    GameMap {
        size,
        tiles: vec![TileType::Floor; n],
        rooms: Vec::new(),
        revealed_tiles: vec![false; n],
        visible_tiles: vec![false; n],
        blocked: vec![false; n],
        tile_content: vec![Vec::new(); n],
    }
}

#[test]
fn carving_a_room_turns_exactly_its_tiles_to_floor() {
    let size = Rect::new(0, 0, 10, 10);
    let mut tiles = vec![TileType::Wall; 100];
    let room = Rect::new(2, 3, 4, 2);
    apply_room_to_map(&size, &room, &mut tiles);
    for y in 0..10 {
        for x in 0..10 {
            let idx = size.xy_idx(x, y);
            let inside = x >= 2 && x < 6 && y >= 3 && y < 5;
            assert_eq!(tiles[idx] == TileType::Floor, inside, "tile ({x},{y})");
        }
    }
}

#[test]
fn carving_is_idempotent_on_floor() {
    let size = Rect::new(0, 0, 10, 10);
    let mut tiles = vec![TileType::Wall; 100];
    let room = Rect::new(1, 1, 5, 5);
    apply_room_to_map(&size, &room, &mut tiles);
    let once = tiles.clone();
    apply_room_to_map(&size, &room, &mut tiles);
    assert_eq!(tiles, once);
}

#[test]
fn tunnels_carve_inclusive_segments_and_are_idempotent() {
    let size = Rect::new(0, 0, 10, 10);
    let mut tiles = vec![TileType::Wall; 100];
    apply_horizontal_tunnel(&size, 2, 6, 4, &mut tiles);
    apply_vertical_tunnel(&size, 1, 3, 8, &mut tiles);
    for x in 2..=6 {
        assert_eq!(tiles[size.xy_idx(x, 4)], TileType::Floor);
    }
    for y in 1..=3 {
        assert_eq!(tiles[size.xy_idx(8, y)], TileType::Floor);
    }
    assert_eq!(tiles[size.xy_idx(1, 4)], TileType::Wall);
    assert_eq!(tiles[size.xy_idx(7, 4)], TileType::Wall);
    let once = tiles.clone();
    apply_horizontal_tunnel(&size, 2, 6, 4, &mut tiles);
    apply_vertical_tunnel(&size, 1, 3, 8, &mut tiles);
    assert_eq!(tiles, once);
}

#[test]
fn populate_blocked_matches_wall_mask() {
    let mut map = open_map(5, 5);
    map.tiles[7] = TileType::Wall;
    map.tiles[13] = TileType::Wall;
    map.blocked[2] = true;
    map.populate_blocked();
    for i in 0..25 {
        assert_eq!(map.blocked[i], map.tiles[i] == TileType::Wall);
    }
}

#[test]
fn clear_content_index_empties_every_list() {
    let mut map = open_map(4, 4);
    map.tile_content[3].push(7);
    map.tile_content[9].push(1);
    map.clear_content_index();
    for lst in &map.tile_content {
        assert!(lst.is_empty());
    }
}

#[test]
fn is_exit_valid_rejects_out_of_bounds_and_blocked() {
    let mut map = open_map(5, 5);
    let center = map.xy_idx(2, 2);
    map.blocked[center] = true;
    assert!(!map.is_exit_valid(-1, 0));
    assert!(!map.is_exit_valid(0, 5));
    assert!(!map.is_exit_valid(2, 2));
    assert!(map.is_exit_valid(1, 1));
}

#[test]
fn generated_map_has_rooms_without_mutual_intersections() {
    let mut world = World::new();
    let mut rng = rng_seeded(1);
    let viewport = Viewport { map_width: 80, map_height: 43, log_height: 7 };
    let map = GameMap::new_map_rooms_and_corridors(&mut world, &viewport, &mut rng);
    assert_eq!(map.size.width(), 80);
    assert_eq!(map.size.height(), 43);
    assert!(!map.rooms.is_empty());
    assert!(map.rooms.len() <= 30);
    for i in 0..map.rooms.len() {
        for j in 0..map.rooms.len() {
            if i != j {
                let later = if i < j { map.rooms[j] } else { map.rooms[i] };
                let earlier = if i < j { map.rooms[i] } else { map.rooms[j] };
                assert!(!later.intersect(&earlier), "rooms {i} and {j} intersect");
            }
        }
    }
}

#[test]
fn generated_rooms_are_carved_to_floor_inside_the_border() {
    let mut world = World::new();
    let mut rng = rng_seeded(42);
    let viewport = Viewport { map_width: 60, map_height: 40, log_height: 7 };
    let map = GameMap::new_map_rooms_and_corridors(&mut world, &viewport, &mut rng);
    for room in &map.rooms {
        assert!(room.min.x >= 1 && room.max.x <= 59);
        assert!(room.min.y >= 1 && room.max.y <= 39);
        for y in room.min.y..room.max.y {
            for x in room.min.x..room.max.x {
                assert_eq!(map.tiles[map.xy_idx(x, y)], TileType::Floor);
            }
        }
    }
}

#[test]
fn generated_entities_stand_inside_the_map() {
    let mut world = World::new();
    let mut rng = rng_seeded(7);
    let viewport = Viewport { map_width: 50, map_height: 30, log_height: 7 };
    let map = GameMap::new_map_rooms_and_corridors(&mut world, &viewport, &mut rng);
    for e in 0..world.len() {
        if let Some(p) = world.positions[e] {
            assert!(world.alive[e]);
            assert!(map.size.contains(&Position { x: p.x, y: p.y }));
        }
    }
}
