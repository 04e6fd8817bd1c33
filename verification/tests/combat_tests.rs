use rusty_roguelike::components::{CombatStats, Name, SufferDamage, WantsToMelee};
use rusty_roguelike::damage_system::{delete_the_dead, run_damage};
use rusty_roguelike::gamelog::GameLog;
use rusty_roguelike::melee_combat_system::run_melee_combat;
use rusty_roguelike::world::World;

fn combatant(world: &mut World, name: &str, max_hp: i32, hp: i32, defense: i32, power: i32) -> usize {
    let e = world.create_entity();
    world.combat_stats[e] = Some(CombatStats { max_hp, hp, defense, power });
    world.names[e] = Some(Name { name: name.to_string() });
    e
}

#[test]
fn one_melee_cycle_reduces_hp_by_power_minus_defense() {
    // A (power 5, defense 2) adjacent to B (power 4, defense 1, hp 16):
    // one resolution cycle costs B max(0, 5 - 1) = 4 hit points.
    let mut world = World::new();
    let a = combatant(&mut world, "A", 30, 30, 2, 5);
    let b = combatant(&mut world, "B", 16, 16, 1, 4);
    world.melee_intents[a] = Some(WantsToMelee { target: b });
    run_melee_combat(&mut world);
    assert!(world.melee_intents[a].is_none(), "intent consumed in the same tick");
    assert_eq!(world.suffer_damage[b].as_ref().unwrap().amount, vec![4]);
    run_damage(&mut world);
    assert_eq!(world.combat_stats[b].as_ref().unwrap().hp, 12);
    assert!(world.suffer_damage[b].is_none(), "no accumulator leftover after the tick");
    assert_eq!(world.combat_stats[a].as_ref().unwrap().hp, 30);
}

#[test]
fn mutual_attacks_resolve_independently() {
    let mut world = World::new();
    let a = combatant(&mut world, "A", 30, 30, 2, 5);
    let b = combatant(&mut world, "B", 16, 16, 1, 4);
    world.melee_intents[a] = Some(WantsToMelee { target: b });
    world.melee_intents[b] = Some(WantsToMelee { target: a });
    run_melee_combat(&mut world);
    run_damage(&mut world);
    assert_eq!(world.combat_stats[b].as_ref().unwrap().hp, 12);
    // B hits A for max(0, 4 - 2) = 2
    assert_eq!(world.combat_stats[a].as_ref().unwrap().hp, 28);
}

#[test]
fn zero_damage_attacks_leave_no_accumulator() {
    let mut world = World::new();
    let a = combatant(&mut world, "A", 10, 10, 0, 3);
    let b = combatant(&mut world, "B", 10, 10, 5, 1);
    world.melee_intents[a] = Some(WantsToMelee { target: b });
    run_melee_combat(&mut world);
    assert!(world.suffer_damage[b].is_none());
    run_damage(&mut world);
    assert_eq!(world.combat_stats[b].as_ref().unwrap().hp, 10);
}

#[test]
fn attacks_on_dead_targets_are_skipped() {
    let mut world = World::new();
    let a = combatant(&mut world, "A", 10, 10, 0, 3);
    let b = combatant(&mut world, "B", 10, 0, 0, 1);
    world.melee_intents[a] = Some(WantsToMelee { target: b });
    run_melee_combat(&mut world);
    assert!(world.suffer_damage[b].is_none());
    assert!(world.melee_intents[a].is_none());
}

#[test]
fn damage_clamps_hit_points_at_zero() {
    let mut world = World::new();
    let b = combatant(&mut world, "B", 16, 3, 1, 4);
    SufferDamage::new_damage(&mut world.suffer_damage, b, 5);
    SufferDamage::new_damage(&mut world.suffer_damage, b, 2);
    assert_eq!(world.suffer_damage[b].as_ref().unwrap().amount, vec![5, 2]);
    run_damage(&mut world);
    let stats = world.combat_stats[b].as_ref().unwrap();
    assert_eq!(stats.hp, 0);
    assert!(stats.hp >= 0 && stats.hp <= stats.max_hp);
}

#[test]
fn multiple_sources_accumulate_before_application() {
    let mut world = World::new();
    let b = combatant(&mut world, "B", 20, 20, 0, 0);
    SufferDamage::new_damage(&mut world.suffer_damage, b, 3);
    SufferDamage::new_damage(&mut world.suffer_damage, b, 4);
    run_damage(&mut world);
    assert_eq!(world.combat_stats[b].as_ref().unwrap().hp, 13);
}

#[test]
fn dead_entity_is_removed_at_the_synchronization_point_with_one_log_entry() {
    let mut world = World::new();
    let victim = combatant(&mut world, "Goblin", 16, 16, 1, 4);
    let mut log = GameLog::new();
    SufferDamage::new_damage(&mut world.suffer_damage, victim, 16);
    run_damage(&mut world);
    assert_eq!(world.combat_stats[victim].as_ref().unwrap().hp, 0);
    delete_the_dead(&mut world, &mut log);
    assert_eq!(log.entries.len(), 1, "exactly one log entry for the death");
    assert_eq!(log.entries[0], "Goblin has died!");
    assert!(world.alive[victim], "deletion is deferred until the sync point");
    world.maintain();
    assert!(!world.alive[victim]);
    assert!(world.combat_stats[victim].is_none());
    assert!(world.pending_deletes.is_empty());
}

#[test]
fn player_death_is_logged_but_the_player_is_not_deleted() {
    let mut world = World::new();
    let hero = combatant(&mut world, "Player", 30, 0, 2, 5);
    world.players[hero] = Some(rusty_roguelike::components::Player {});
    let mut log = GameLog::new();
    delete_the_dead(&mut world, &mut log);
    assert_eq!(log.entries.len(), 1);
    assert_eq!(log.entries[0], "You have died!");
    world.maintain();
    assert!(world.alive[hero]);
}

#[test]
fn survivors_keep_positive_hit_points_within_bounds() {
    let mut world = World::new();
    let b = combatant(&mut world, "B", 16, 16, 1, 4);
    SufferDamage::new_damage(&mut world.suffer_damage, b, 7);
    run_damage(&mut world);
    let stats = world.combat_stats[b].as_ref().unwrap();
    assert_eq!(stats.hp, 9);
    assert!(0 <= stats.hp && stats.hp <= stats.max_hp);
    let mut log = GameLog::new();
    delete_the_dead(&mut world, &mut log);
    assert!(log.entries.is_empty());
    world.maintain();
    assert!(world.alive[b]);
}
