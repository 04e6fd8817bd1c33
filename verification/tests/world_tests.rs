use rusty_roguelike::components::Position;
use rusty_roguelike::rng::{rng_range, rng_roll_dice, rng_seeded};
use rusty_roguelike::spawner;
use rusty_roguelike::world::World;

#[test]
fn created_entities_get_fresh_stable_identifiers() {
    let mut world = World::new();
    let a = world.create_entity();
    let b = world.create_entity();
    assert_eq!((a, b), (0, 1));
    assert!(world.is_alive(a) && world.is_alive(b));
    world.delete_entity(a);
    assert!(world.is_alive(a), "deletion waits for the sync point");
    world.maintain();
    assert!(!world.is_alive(a));
    assert!(world.is_alive(b));
    let c = world.create_entity();
    assert_eq!(c, 2, "identifiers are never reused");
}

#[test]
fn maintain_strips_every_attribute_of_deleted_entities() {
    let mut world = World::new();
    let e = spawner::player(&mut world, Position { x: 3, y: 4 });
    world.delete_entity(e);
    world.maintain();
    assert!(world.positions[e].is_none());
    assert!(world.combat_stats[e].is_none());
    assert!(world.names[e].is_none());
    assert!(world.viewsheds[e].is_none());
    assert!(world.players[e].is_none());
}

#[test]
fn spawned_player_matches_its_fixed_stat_block() {
    let mut world = World::new();
    let e = spawner::player(&mut world, Position { x: 3, y: 4 });
    assert_eq!(world.positions[e], Some(Position { x: 3, y: 4 }));
    let stats = world.combat_stats[e].unwrap();
    assert_eq!((stats.max_hp, stats.hp, stats.defense, stats.power), (30, 30, 2, 5));
    assert!(world.players[e].is_some());
    assert!(world.blockers[e].is_none());
    let vs = world.viewsheds[e].as_ref().unwrap();
    assert_eq!(vs.range, 8);
    assert!(vs.dirty);
    assert_eq!(world.names[e].as_ref().unwrap().name, "Player");
}

#[test]
fn spawned_monster_blocks_its_tile_with_monster_stats() {
    let mut world = World::new();
    let mut rng = rng_seeded(5);
    let e = spawner::random_monster(&mut world, &mut rng, Position { x: 7, y: 2 });
    let stats = world.combat_stats[e].unwrap();
    assert_eq!((stats.max_hp, stats.hp, stats.defense, stats.power), (16, 16, 1, 4));
    assert!(world.monsters[e].is_some());
    assert!(world.blockers[e].is_some());
    assert!(world.players[e].is_none());
    let name = &world.names[e].as_ref().unwrap().name;
    assert!(name == "Orc" || name == "Goblin");
}

#[test]
fn spawned_potion_is_a_consumable_item() {
    let mut world = World::new();
    let e = spawner::health_potion(&mut world, &Position { x: 1, y: 1 });
    assert!(world.items[e].is_some());
    assert_eq!(world.potions[e].unwrap().heal_amount, 8);
    assert!(world.combat_stats[e].is_none());
    assert_eq!(world.names[e].as_ref().unwrap().name, "Health Potion");
}

#[test]
fn spawn_room_places_everything_inside_the_room() {
    let mut world = World::new();
    let mut rng = rng_seeded(11);
    let room = rusty_roguelike::rect::Rect::new(4, 6, 7, 7);
    for _ in 0..20 {
        spawner::spawn_room(&mut world, &mut rng, &room);
    }
    assert!(world.len() > 0, "twenty attempts spawn something");
    for e in 0..world.len() {
        let p = world.positions[e].expect("every spawned entity has a position");
        assert!(room.contains(&p), "entity {e} at ({}, {}) outside the room", p.x, p.y);
    }
}

#[test]
fn rng_wrappers_respect_their_ranges() {
    let mut rng = rng_seeded(9);
    for _ in 0..100 {
        let v = rng_range(&mut rng, 6, 10);
        assert!((6..10).contains(&v));
        let d = rng_roll_dice(&mut rng, 1, 2);
        assert!((1..=2).contains(&d));
        let s = rng_roll_dice(&mut rng, 3, 6);
        assert!((3..=18).contains(&s));
    }
}

#[test]
fn seeded_rng_is_deterministic() {
    let mut a = rng_seeded(123);
    let mut b = rng_seeded(123);
    for _ in 0..20 {
        assert_eq!(rng_range(&mut a, 0, 1000), rng_range(&mut b, 0, 1000));
    }
}
