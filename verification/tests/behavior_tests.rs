use rusty_roguelike::behavior::monster_ai;
use rusty_roguelike::components::{CombatStats, Monster, Name, Position, RunState, Viewshed};
use rusty_roguelike::map::{GameMap, TileType};
use rusty_roguelike::rect::Rect;
use rusty_roguelike::world::World;

fn open_map(w: i32, h: i32) -> GameMap {
    let size = Rect::new(0, 0, w, h);
    let n = (w * h) as usize;
    GameMap {
        size,
        tiles: vec![TileType::Floor; n],
        rooms: Vec::new(),
        revealed_tiles: vec![false; n],
        visible_tiles: vec![false; n],
        blocked: vec![false; n],
        tile_content: vec![Vec::new(); n],
    }
}

fn monster_at(world: &mut World, pos: Position, sees: Vec<Position>, dirty: bool) -> usize {
    let e = world.create_entity();
    world.positions[e] = Some(pos);
    world.monsters[e] = Some(Monster {});
    world.names[e] = Some(Name { name: "Orc".to_string() });
    world.combat_stats[e] = Some(CombatStats { max_hp: 16, hp: 16, defense: 1, power: 4 });
    world.viewsheds[e] = Some(Viewshed { visible_tiles: sees, range: 8, dirty });
    e
}

#[test]
fn adjacent_monster_attacks_instead_of_moving() {
    let mut world = World::new();
    let player = world.create_entity();
    let ppos = Position { x: 5, y: 5 };
    let mpos = Position { x: 6, y: 6 };
    let m = monster_at(&mut world, mpos, vec![ppos], false);
    let map = open_map(12, 12);
    monster_ai(&mut world, &map, ppos, player, RunState::MonsterTurn);
    let intent = world.melee_intents[m].expect("diagonal adjacency triggers melee");
    assert_eq!(intent.target, player);
    assert_eq!(world.positions[m], Some(mpos));
}

#[test]
fn seeing_monster_steps_one_tile_along_a_route_and_dirties_its_viewshed() {
    let mut world = World::new();
    let player = world.create_entity();
    let ppos = Position { x: 9, y: 5 };
    let mpos = Position { x: 2, y: 5 };
    let m = monster_at(&mut world, mpos, vec![ppos], false);
    let map = open_map(12, 12);
    monster_ai(&mut world, &map, ppos, player, RunState::MonsterTurn);
    let np = world.positions[m].unwrap();
    assert!((np.x - mpos.x).abs() <= 1 && (np.y - mpos.y).abs() <= 1);
    assert_ne!(np, mpos, "the monster advanced");
    assert!(world.viewsheds[m].as_ref().unwrap().dirty);
    assert!(world.melee_intents[m].is_none());
}

#[test]
fn walled_off_monster_takes_no_action_and_stays_clean() {
    // the target is inside the visible set but there is no passable route
    let mut world = World::new();
    let player = world.create_entity();
    let ppos = Position { x: 9, y: 5 };
    let mpos = Position { x: 2, y: 5 };
    let m = monster_at(&mut world, mpos, vec![ppos], false);
    let mut map = open_map(12, 12);
    for y in 0..12 {
        let idx = map.xy_idx(6, y);
        map.tiles[idx] = TileType::Wall;
        map.blocked[idx] = true;
    }
    monster_ai(&mut world, &map, ppos, player, RunState::MonsterTurn);
    assert_eq!(world.positions[m], Some(mpos), "no movement without a route");
    assert!(!world.viewsheds[m].as_ref().unwrap().dirty, "dirty flag remains false");
    assert!(world.melee_intents[m].is_none());
}

#[test]
fn unseeing_monster_idles() {
    let mut world = World::new();
    let player = world.create_entity();
    let ppos = Position { x: 9, y: 5 };
    let mpos = Position { x: 2, y: 5 };
    let m = monster_at(&mut world, mpos, Vec::new(), false);
    let map = open_map(12, 12);
    monster_ai(&mut world, &map, ppos, player, RunState::MonsterTurn);
    assert_eq!(world.positions[m], Some(mpos));
    assert!(world.melee_intents[m].is_none());
    assert!(!world.viewsheds[m].as_ref().unwrap().dirty);
}

#[test]
fn monsters_only_act_during_the_monster_turn() {
    let mut world = World::new();
    let player = world.create_entity();
    let ppos = Position { x: 3, y: 3 };
    let mpos = Position { x: 4, y: 4 };
    let m = monster_at(&mut world, mpos, vec![ppos], false);
    let map = open_map(12, 12);
    monster_ai(&mut world, &map, ppos, player, RunState::PlayerTurn);
    assert!(world.melee_intents[m].is_none());
    assert_eq!(world.positions[m], Some(mpos));
}
