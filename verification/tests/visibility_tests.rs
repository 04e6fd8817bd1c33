use rusty_roguelike::components::{Player, Position, Viewshed};
use rusty_roguelike::map::{GameMap, TileType};
use rusty_roguelike::rect::Rect;
use rusty_roguelike::visibility_system::{field_of_view, run_visibility};
use rusty_roguelike::world::World;

fn open_map(w: i32, h: i32) -> GameMap {
    let size = Rect::new(0, 0, w, h);
    let n = (w * h) as usize;
    GameMap {
        size,
        tiles: vec![TileType::Floor; n],
        rooms: Vec::new(),
        revealed_tiles: vec![false; n],
        visible_tiles: vec![false; n],
        blocked: vec![false; n],
        tile_content: vec![Vec::new(); n],
    }
}

#[test]
fn fov_contains_origin_and_respects_range() {
    let map = open_map(21, 21);
    let origin = Position { x: 10, y: 10 };
    let tiles = field_of_view(&map, origin, 4);
    assert!(tiles.contains(&origin));
    for t in &tiles {
        let (dx, dy) = (t.x - origin.x, t.y - origin.y);
        assert!(dx * dx + dy * dy <= 16);
    }
    // a tile on the rim of the disc is seen on an open map
    assert!(tiles.contains(&Position { x: 14, y: 10 }));
    assert!(!tiles.contains(&Position { x: 15, y: 10 }));
}

#[test]
fn fov_walls_block_sight_but_are_themselves_visible() {
    let mut map = open_map(21, 21);
    let origin = Position { x: 10, y: 10 };
    let wall_idx = map.xy_idx(12, 10);
    map.tiles[wall_idx] = TileType::Wall;
    let tiles = field_of_view(&map, origin, 6);
    assert!(tiles.contains(&Position { x: 12, y: 10 }), "the wall itself is seen");
    assert!(!tiles.contains(&Position { x: 13, y: 10 }), "behind the wall is hidden");
    assert!(!tiles.contains(&Position { x: 14, y: 10 }));
}

#[test]
fn fov_stays_inside_the_map() {
    let map = open_map(6, 6);
    let origin = Position { x: 1, y: 1 };
    let tiles = field_of_view(&map, origin, 8);
    for t in &tiles {
        assert!(t.x >= 0 && t.x < 6 && t.y >= 0 && t.y < 6);
    }
}

fn world_with_viewer(map: &GameMap, pos: Position, is_player: bool) -> (World, usize) {
    let mut world = World::new();
    let e = world.create_entity();
    world.positions[e] = Some(pos);
    world.viewsheds[e] = Some(Viewshed { visible_tiles: Vec::new(), range: 8, dirty: true });
    if is_player {
        world.players[e] = Some(Player {});
    }
    let _ = map;
    (world, e)
}

#[test]
fn visibility_pass_clears_dirty_and_fills_the_viewshed() {
    let mut map = open_map(20, 20);
    let (mut world, e) = world_with_viewer(&map, Position { x: 5, y: 5 }, false);
    run_visibility(&mut world, &mut map);
    let vs = world.viewsheds[e].as_ref().unwrap();
    assert!(!vs.dirty);
    assert!(vs.visible_tiles.contains(&Position { x: 5, y: 5 }));
    // a non-player viewer never touches the map masks
    assert!(map.visible_tiles.iter().all(|&v| !v));
    assert!(map.revealed_tiles.iter().all(|&v| !v));
}

#[test]
fn player_visibility_reveals_and_visible_is_subset_of_revealed() {
    let mut map = open_map(20, 20);
    let (mut world, _e) = world_with_viewer(&map, Position { x: 5, y: 5 }, true);
    run_visibility(&mut world, &mut map);
    assert!(map.visible_tiles.iter().any(|&v| v));
    for i in 0..map.visible_tiles.len() {
        if map.visible_tiles[i] {
            assert!(map.revealed_tiles[i], "visible tile {i} not revealed");
        }
    }
}

#[test]
fn revealed_tiles_grow_monotonically_across_moves() {
    let mut map = open_map(30, 20);
    let (mut world, e) = world_with_viewer(&map, Position { x: 5, y: 5 }, true);
    run_visibility(&mut world, &mut map);
    let first_revealed = map.revealed_tiles.clone();
    // the viewer moves far away and recomputes
    world.positions[e] = Some(Position { x: 25, y: 15 });
    if let Some(vs) = world.viewsheds[e].as_mut() {
        vs.dirty = true;
    }
    run_visibility(&mut world, &mut map);
    for i in 0..first_revealed.len() {
        if first_revealed[i] {
            assert!(map.revealed_tiles[i], "tile {i} un-revealed");
        }
    }
}

#[test]
fn clean_viewsheds_make_the_pass_a_no_op() {
    let mut map = open_map(20, 20);
    let (mut world, e) = world_with_viewer(&map, Position { x: 5, y: 5 }, true);
    run_visibility(&mut world, &mut map);
    let tiles_after_first = world.viewsheds[e].as_ref().unwrap().visible_tiles.clone();
    let map_visible = map.visible_tiles.clone();
    let map_revealed = map.revealed_tiles.clone();
    // dirty is false now: a second pass changes nothing
    run_visibility(&mut world, &mut map);
    assert_eq!(world.viewsheds[e].as_ref().unwrap().visible_tiles, tiles_after_first);
    assert_eq!(map.visible_tiles, map_visible);
    assert_eq!(map.revealed_tiles, map_revealed);
}
