use rusty_roguelike::components::{CombatStats, Position, RunState};
use rusty_roguelike::gamelog::GameLog;
use rusty_roguelike::map::{GameMap, TileType};
use rusty_roguelike::player::PlayerMove;
use rusty_roguelike::rect::Rect;
use rusty_roguelike::spawner;
use rusty_roguelike::state::State;
use rusty_roguelike::viewport::Viewport;
use rusty_roguelike::world::World;

fn open_map(w: i32, h: i32) -> GameMap {
    let size = Rect::new(0, 0, w, h);
    let n = (w * h) as usize;
    GameMap {
        size,
        tiles: vec![TileType::Floor; n],
        rooms: Vec::new(),
        revealed_tiles: vec![false; n],
        visible_tiles: vec![false; n],
        blocked: vec![false; n],
        tile_content: vec![Vec::new(); n],
    }
}

fn fresh_state() -> State {
    let mut world = World::new();
    let map = open_map(20, 20);
    let start = Position { x: 10, y: 10 };
    let player_entity = spawner::player(&mut world, start);
    State {
        viewport: Viewport { map_width: 20, map_height: 20, log_height: 7 },
        ecs: world,
        map,
        player_entity,
        player_pos: start,
        run_state: RunState::PreRun,
        log: GameLog::new(),
    }
}

#[test]
fn scheduler_cycles_through_the_turn_states() {
    let mut gs = fresh_state();
    assert_eq!(gs.run_state, RunState::PreRun);
    gs.tick(PlayerMove::NoInput);
    assert_eq!(gs.run_state, RunState::AwaitingInput);
    gs.tick(PlayerMove::NoInput);
    assert_eq!(gs.run_state, RunState::AwaitingInput, "non-action input re-enters waiting");
    gs.tick(PlayerMove::Cancel);
    assert_eq!(gs.run_state, RunState::AwaitingInput);
    gs.tick(PlayerMove::OpenInventory);
    assert_eq!(gs.run_state, RunState::AwaitingInput, "UI sub-states live outside the core");
    gs.tick(PlayerMove::Move(1, 0));
    assert_eq!(gs.run_state, RunState::PlayerTurn, "a movement action starts the player turn");
    gs.tick(PlayerMove::NoInput);
    assert_eq!(gs.run_state, RunState::MonsterTurn);
    gs.tick(PlayerMove::NoInput);
    assert_eq!(gs.run_state, RunState::AwaitingInput);
}

#[test]
fn moving_updates_the_player_position_and_recomputes_visibility() {
    let mut gs = fresh_state();
    gs.tick(PlayerMove::NoInput);  // PreRun pipeline settles initial visibility
    assert!(!gs.ecs.viewsheds[gs.player_entity].as_ref().unwrap().dirty);
    gs.tick(PlayerMove::Move(1, 0));
    assert_eq!(gs.player_pos, Position { x: 11, y: 10 });
    assert_eq!(gs.ecs.positions[gs.player_entity], Some(Position { x: 11, y: 10 }));
    assert!(gs.ecs.viewsheds[gs.player_entity].as_ref().unwrap().dirty);
    gs.tick(PlayerMove::NoInput);  // player turn pipeline
    assert!(!gs.ecs.viewsheds[gs.player_entity].as_ref().unwrap().dirty);
}

#[test]
fn movement_is_clamped_to_the_map_interior() {
    let mut gs = fresh_state();
    gs.ecs.positions[gs.player_entity] = Some(Position { x: 1, y: 1 });
    gs.player_pos = Position { x: 1, y: 1 };
    gs.run_state = RunState::AwaitingInput;
    gs.tick(PlayerMove::Move(-1, -1));
    assert_eq!(gs.player_pos, Position { x: 1, y: 1 }, "clamped at the border");
}

#[test]
fn moving_into_a_wall_does_not_move_the_player() {
    let mut gs = fresh_state();
    gs.run_state = RunState::AwaitingInput;
    let wall = gs.map.xy_idx(11, 10);
    gs.map.tiles[wall] = TileType::Wall;
    gs.map.blocked[wall] = true;
    gs.tick(PlayerMove::Move(1, 0));
    assert_eq!(gs.player_pos, Position { x: 10, y: 10 });
    assert_eq!(gs.run_state, RunState::PlayerTurn);
}

#[test]
fn bumping_into_a_monster_attacks_it() {
    let mut gs = fresh_state();
    gs.run_state = RunState::AwaitingInput;
    let orc = spawner::random_monster(
        &mut gs.ecs,
        &mut rusty_roguelike::rng::rng_seeded(3),
        Position { x: 11, y: 10 },
    );
    // the index must be current for bump-attacks to see the occupant
    rusty_roguelike::map_indexing_system::run_map_indexing(&gs.ecs, &mut gs.map);
    let orc_hp = gs.ecs.combat_stats[orc].unwrap().hp;
    gs.tick(PlayerMove::Move(1, 0));
    assert_eq!(gs.player_pos, Position { x: 10, y: 10 }, "attacking replaces moving");
    assert_eq!(gs.ecs.melee_intents[gs.player_entity].unwrap().target, orc);
    gs.tick(PlayerMove::NoInput);  // player turn pipeline resolves the attack
    // player power 5 against monster defense 1: 4 damage
    assert_eq!(gs.ecs.combat_stats[orc].unwrap().hp, orc_hp - 4);
    assert!(gs.ecs.melee_intents[gs.player_entity].is_none());
    assert!(gs.ecs.suffer_damage[orc].is_none());
}

#[test]
fn a_full_cycle_lets_an_adjacent_monster_strike_back() {
    let mut gs = fresh_state();
    gs.run_state = RunState::AwaitingInput;
    spawner::random_monster(
        &mut gs.ecs,
        &mut rusty_roguelike::rng::rng_seeded(3),
        Position { x: 11, y: 10 },
    );
    rusty_roguelike::map_indexing_system::run_map_indexing(&gs.ecs, &mut gs.map);
    gs.tick(PlayerMove::Move(1, 0));  // bump attack
    gs.tick(PlayerMove::NoInput);  // player turn
    gs.tick(PlayerMove::NoInput);  // monster turn: the monster hits back
    // monster power 4 against player defense 2: 2 damage
    assert_eq!(gs.ecs.combat_stats[gs.player_entity].unwrap().hp, 28);
    assert_eq!(gs.run_state, RunState::AwaitingInput);
}

#[test]
fn picking_up_an_item_moves_it_into_the_backpack() {
    let mut gs = fresh_state();
    gs.run_state = RunState::AwaitingInput;
    let potion = spawner::health_potion(&mut gs.ecs, &Position { x: 10, y: 10 });
    gs.tick(PlayerMove::PickupItem);
    assert_eq!(gs.run_state, RunState::PlayerTurn);
    let intent = gs.ecs.pickup_intents[gs.player_entity].unwrap();
    assert_eq!(intent.item, potion);
    gs.tick(PlayerMove::NoInput);  // pipeline runs the collection system
    assert!(gs.ecs.positions[potion].is_none(), "picked-up item leaves the map");
    assert_eq!(gs.ecs.backpacks[potion].unwrap().owner, gs.player_entity);
    assert!(gs.ecs.pickup_intents[gs.player_entity].is_none());
    assert!(gs.log.entries.iter().any(|l| l == "You pick up the Health Potion."));
}

#[test]
fn pickup_with_nothing_underfoot_only_logs() {
    let mut gs = fresh_state();
    gs.run_state = RunState::AwaitingInput;
    gs.tick(PlayerMove::PickupItem);
    assert!(gs.ecs.pickup_intents[gs.player_entity].is_none());
    assert_eq!(gs.log.entries.last().unwrap(), "There is nothing here to pick up.");
}

#[test]
fn drinking_a_potion_heals_up_to_max_hp_and_consumes_it() {
    let mut gs = fresh_state();
    gs.run_state = RunState::AwaitingInput;
    let potion = spawner::health_potion(&mut gs.ecs, &Position { x: 10, y: 10 });
    if let Some(stats) = gs.ecs.combat_stats[gs.player_entity].as_mut() {
        stats.hp = 25;
    }
    gs.tick(PlayerMove::UseItem(potion));
    assert_eq!(gs.run_state, RunState::PlayerTurn);
    gs.tick(PlayerMove::NoInput);  // pipeline runs the potion stage
    // 25 + 8 capped at max_hp 30
    assert_eq!(gs.ecs.combat_stats[gs.player_entity].unwrap().hp, 30);
    assert!(gs.log.entries.iter().any(|l| l == "You drink the Health Potion, healing 8 hp."));
    assert!(!gs.ecs.alive[potion], "the drunk potion is gone after the sync point");
    assert!(gs.ecs.consume_intents[gs.player_entity].is_none());
}

#[test]
fn monster_killed_by_the_player_is_swept_within_the_tick() {
    let mut gs = fresh_state();
    gs.run_state = RunState::AwaitingInput;
    let orc = spawner::random_monster(
        &mut gs.ecs,
        &mut rusty_roguelike::rng::rng_seeded(3),
        Position { x: 11, y: 10 },
    );
    if let Some(stats) = gs.ecs.combat_stats[orc].as_mut() {
        stats.hp = 4;  // one player hit kills
    }
    rusty_roguelike::map_indexing_system::run_map_indexing(&gs.ecs, &mut gs.map);
    let log_len = gs.log.entries.len();
    gs.tick(PlayerMove::Move(1, 0));
    gs.tick(PlayerMove::NoInput);  // player turn pipeline: hit, death, sweep, sync
    assert!(!gs.ecs.alive[orc]);
    let new_lines: Vec<&String> = gs.log.entries[log_len..].iter().collect();
    assert_eq!(new_lines.iter().filter(|l| l.ends_with("has died!")).count(), 1);
}
