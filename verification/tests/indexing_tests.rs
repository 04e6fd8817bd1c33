use rusty_roguelike::components::{BlocksTile, Position};
use rusty_roguelike::map::{GameMap, TileType};
use rusty_roguelike::map_indexing_system::run_map_indexing;
use rusty_roguelike::rect::Rect;
use rusty_roguelike::world::World;

fn open_map(w: i32, h: i32) -> GameMap {
    let size = Rect::new(0, 0, w, h);
    let n = (w * h) as usize;
    GameMap {
        size,
        tiles: vec![TileType::Floor; n],
        rooms: Vec::new(),
        revealed_tiles: vec![false; n],
        visible_tiles: vec![false; n],
        blocked: vec![false; n],
        tile_content: vec![Vec::new(); n],
    }
}

#[test]
fn blocked_mask_is_walls_plus_blocking_occupants() {
    let mut map = open_map(6, 6);
    let wall_idx = map.xy_idx(1, 1);
    map.tiles[wall_idx] = TileType::Wall;
    let mut world = World::new();
    let blocker = world.create_entity();
    world.positions[blocker] = Some(Position { x: 3, y: 3 });
    world.blockers[blocker] = Some(BlocksTile {});
    let walker = world.create_entity();
    world.positions[walker] = Some(Position { x: 4, y: 4 });
    run_map_indexing(&world, &mut map);
    for y in 0..6 {
        for x in 0..6 {
            let idx = map.xy_idx(x, y);
            let expect = (x, y) == (1, 1) || (x, y) == (3, 3);
            assert_eq!(map.blocked[idx], expect, "tile ({x},{y})");
        }
    }
}

#[test]
fn tile_content_holds_exactly_the_live_occupants() {
    let mut map = open_map(6, 6);
    let mut world = World::new();
    let a = world.create_entity();
    world.positions[a] = Some(Position { x: 2, y: 2 });
    let b = world.create_entity();
    world.positions[b] = Some(Position { x: 2, y: 2 });
    let c = world.create_entity();
    world.positions[c] = Some(Position { x: 5, y: 0 });
    let homeless = world.create_entity();
    let _ = homeless;
    run_map_indexing(&world, &mut map);
    let shared = &map.tile_content[map.xy_idx(2, 2)];
    assert_eq!(shared.len(), 2);
    assert!(shared.contains(&a) && shared.contains(&b));
    assert_eq!(map.tile_content[map.xy_idx(5, 0)], vec![c]);
    assert!(map.tile_content[map.xy_idx(0, 0)].is_empty());
}

#[test]
fn rebuild_drops_stale_entities_after_deletion() {
    let mut map = open_map(6, 6);
    let mut world = World::new();
    let a = world.create_entity();
    world.positions[a] = Some(Position { x: 2, y: 2 });
    world.blockers[a] = Some(BlocksTile {});
    run_map_indexing(&world, &mut map);
    assert!(map.blocked[map.xy_idx(2, 2)]);
    world.delete_entity(a);
    world.maintain();
    run_map_indexing(&world, &mut map);
    assert!(!map.blocked[map.xy_idx(2, 2)], "dead blocker no longer blocks");
    assert!(map.tile_content[map.xy_idx(2, 2)].is_empty(), "no stale entity in the index");
}
