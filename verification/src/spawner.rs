//! The spawner collaborator: creates fully-formed actor and item entities at
//! given positions, with a source of randomness it owns.

use vstd::prelude::*;
use vstd::seq_lib::group_to_multiset_ensures;
use crate::components::{
    BlocksTile, CombatStats, Item, Monster, Name, Player, Position, Potion, Renderable, Rgb,
    Viewshed,
};
use crate::rect::Rect;
use crate::rng::rng_range;
use crate::rng::rng_roll_dice;
use crate::world::{Entity, World, entity_unchanged};

verus! {

/// Most monsters or items a single room may receive.
pub const MAX_MONSTERS_PER_ROOM: i32 = 2;

pub const MAX_ITEMS_PER_ROOM: i32 = 4;

/// In `w2`, entity `e` is a freshly spawned actor standing at `p` with the
/// given glyph and combat values: alive, named, viewing 8 tiles with a dirty
/// viewshed, and blocking its tile.
pub open spec fn spec_actor_at(w2: World, e: int, p: Position, stats: CombatStats) -> bool {
    &&& w2.alive@[e]
    &&& w2.positions@[e] == Some(p)
    &&& w2.combat_stats@[e] == Some(stats)
    &&& w2.viewsheds@[e] matches Some(v) && v.range == 8 && v.dirty && v.visible_tiles@.len() == 0
    &&& w2.names@[e] is Some
    &&& w2.melee_intents@[e] is None
    &&& w2.suffer_damage@[e] is None
}

/// The player's starting combat values.
pub open spec fn spec_player_stats() -> CombatStats {
    CombatStats { max_hp: 30, hp: 30, defense: 2, power: 5 }
}

/// Every monster's combat values.
pub open spec fn spec_monster_stats() -> CombatStats {
    CombatStats { max_hp: 16, hp: 16, defense: 1, power: 4 }
}

/// In `w`, entity `e` is a freshly spawned monster: a blocking, tagged
/// actor with the monster stat block, a clean empty viewshed and a monster
/// name.
pub open spec fn spec_spawned_monster(w: World, e: int) -> bool {
    &&& w.alive@[e]
    &&& w.monsters@[e] is Some
    &&& w.blockers@[e] is Some
    &&& w.players@[e] is None
    &&& w.items@[e] is None
    &&& w.potions@[e] is None
    &&& w.combat_stats@[e] == Some(spec_monster_stats())
    &&& w.viewsheds@[e] matches Some(v) && v.range == 8 && v.dirty && v.visible_tiles@.len() == 0
    &&& w.names@[e] matches Some(nm) && (nm.name@ == "Orc"@ || nm.name@ == "Goblin"@)
}

/// In `w`, entity `e` is a freshly spawned health potion: a named item with
/// the fixed healing amount and no combat presence.
pub open spec fn spec_spawned_potion(w: World, e: int) -> bool {
    &&& w.alive@[e]
    &&& w.items@[e] is Some
    &&& w.potions@[e] == Some((Potion { heal_amount: 8 }))
    &&& w.combat_stats@[e] is None
    &&& w.blockers@[e] is None
    &&& w.players@[e] is None
    &&& w.monsters@[e] is None
    &&& w.names@[e] matches Some(nm) && nm.name@ == "Health Potion"@
}

/// What one room's spawning did: `m` monsters followed by `pcount` potions
/// were appended to the store, with the potions on pairwise distinct tiles.
pub open spec fn spec_room_spawn_shape(w0: World, w1: World, m: int, pcount: int) -> bool {
    &&& 0 <= m <= 1
    &&& 0 <= pcount <= 3
    &&& w1.spec_len() == w0.spec_len() + m + pcount
    &&& forall|e: int| w0.spec_len() <= e < w0.spec_len() + m ==> spec_spawned_monster(w1, e)
    &&& forall|e: int| w0.spec_len() + m <= e < w1.spec_len() ==> spec_spawned_potion(w1, e)
    &&& forall|e1: int, e2: int|
        w0.spec_len() + m <= e1 < e2 < w1.spec_len() ==> (#[trigger] w1.positions@[e1])
            != (#[trigger] w1.positions@[e2])
}

/// The row-major tile offset of `p` inside `room`.
pub open spec fn spec_room_off(room: Rect, p: Position) -> int {
    (p.y - room.min.y) * room.spec_width() + (p.x - room.min.x)
}

/// Spawn the player entity at `position`.
pub fn player(world: &mut World, position: Position) -> (e: Entity)
    requires
        old(world).spec_wf(),
        old(world).spec_len() < usize::MAX,
    ensures
        final(world).spec_wf(),
        e == old(world).spec_len(),
        final(world).spec_len() == old(world).spec_len() + 1,
        spec_actor_at(*final(world), e as int, position, spec_player_stats()),
        final(world).names@[e as int] matches Some(nm) && nm.name@ == "Player"@,
        final(world).players@[e as int] is Some,
        final(world).monsters@[e as int] is None,
        final(world).blockers@[e as int] is None,
        forall|d: int|
            0 <= d < old(world).spec_len() ==> entity_unchanged(*old(world), *final(world), d),
        final(world).pending_deletes@ == old(world).pending_deletes@,
{
    let e = world.create_entity();
    let ghost mid = *world;
    world.positions[e] = Some(position);
    world.renderables[e] = Some(
        Renderable {
            glyph: 64,  // '@' in code page 437
            fg: Rgb { r: 255, g: 255, b: 0 },
            bg: Rgb { r: 0, g: 0, b: 0 },
            render_order: 0,
        },
    );
    world.players[e] = Some(Player {  });
    world.combat_stats[e] = Some(CombatStats { max_hp: 30, hp: 30, defense: 2, power: 5 });
    world.names[e] = Some(Name { name: "Player".to_owned() });
    world.viewsheds[e] = Some(Viewshed { visible_tiles: Vec::new(), range: 8, dirty: true });
    proof {
        assert forall|d: int|
            0 <= d < old(world).spec_len() implies entity_unchanged(*old(world), *world, d) by {
            assert(entity_unchanged(*old(world), mid, d));
        }
    }
    e
}

/// Spawn a single monster with the given glyph and name at `position`.
fn monster(world: &mut World, position: &Position, glyph: u16, name: &str) -> (e: Entity)
    requires
        old(world).spec_wf(),
        old(world).spec_len() < usize::MAX,
    ensures
        final(world).spec_wf(),
        e == old(world).spec_len(),
        final(world).spec_len() == old(world).spec_len() + 1,
        spec_actor_at(*final(world), e as int, *position, spec_monster_stats()),
        final(world).names@[e as int] matches Some(nm) && nm.name@ == name@,
        final(world).monsters@[e as int] is Some,
        final(world).blockers@[e as int] is Some,
        final(world).players@[e as int] is None,
        final(world).items@[e as int] is None,
        final(world).potions@[e as int] is None,
        forall|d: int|
            0 <= d < old(world).spec_len() ==> entity_unchanged(*old(world), *final(world), d),
        final(world).pending_deletes@ == old(world).pending_deletes@,
{
    let e = world.create_entity();
    let ghost mid = *world;
    world.positions[e] = Some(*position);
    world.renderables[e] = Some(
        Renderable {
            glyph,
            fg: Rgb { r: 255, g: 0, b: 0 },
            bg: Rgb { r: 0, g: 0, b: 0 },
            render_order: 0,
        },
    );
    world.viewsheds[e] = Some(Viewshed { visible_tiles: Vec::new(), range: 8, dirty: true });
    world.monsters[e] = Some(Monster {  });
    world.names[e] = Some(Name { name: name.to_owned() });
    world.blockers[e] = Some(BlocksTile {  });
    world.combat_stats[e] = Some(CombatStats { max_hp: 16, hp: 16, defense: 1, power: 4 });
    proof {
        assert forall|d: int|
            0 <= d < old(world).spec_len() implies entity_unchanged(*old(world), *world, d) by {
            assert(entity_unchanged(*old(world), mid, d));
        }
    }
    e
}

/// Spawn an orc at `position`.
fn orc(world: &mut World, position: &Position) -> (e: Entity)
    requires
        old(world).spec_wf(),
        old(world).spec_len() < usize::MAX,
    ensures
        final(world).spec_wf(),
        e == old(world).spec_len(),
        final(world).spec_len() == old(world).spec_len() + 1,
        spec_actor_at(*final(world), e as int, *position, spec_monster_stats()),
        final(world).monsters@[e as int] is Some,
        final(world).blockers@[e as int] is Some,
        final(world).players@[e as int] is None,
        final(world).items@[e as int] is None,
        final(world).potions@[e as int] is None,
        final(world).names@[e as int] matches Some(nm) && nm.name@ == "Orc"@,
        forall|d: int|
            0 <= d < old(world).spec_len() ==> entity_unchanged(*old(world), *final(world), d),
        final(world).pending_deletes@ == old(world).pending_deletes@,
{
    monster(world, position, 111, "Orc")  // 'o' in code page 437
}

/// Spawn a goblin at `position`.
fn goblin(world: &mut World, position: &Position) -> (e: Entity)
    requires
        old(world).spec_wf(),
        old(world).spec_len() < usize::MAX,
    ensures
        final(world).spec_wf(),
        e == old(world).spec_len(),
        final(world).spec_len() == old(world).spec_len() + 1,
        spec_actor_at(*final(world), e as int, *position, spec_monster_stats()),
        final(world).monsters@[e as int] is Some,
        final(world).blockers@[e as int] is Some,
        final(world).players@[e as int] is None,
        final(world).items@[e as int] is None,
        final(world).potions@[e as int] is None,
        final(world).names@[e as int] matches Some(nm) && nm.name@ == "Goblin"@,
        forall|d: int|
            0 <= d < old(world).spec_len() ==> entity_unchanged(*old(world), *final(world), d),
        final(world).pending_deletes@ == old(world).pending_deletes@,
{
    monster(world, position, 103, "Goblin")  // 'g' in code page 437
}

/// Spawn a randomly chosen monster kind (orc or goblin) at `position`.
pub fn random_monster(
    world: &mut World,
    rng: &mut rltk::RandomNumberGenerator,
    position: Position,
) -> (e: Entity)
    requires
        old(world).spec_wf(),
        old(world).spec_len() < usize::MAX,
    ensures
        final(world).spec_wf(),
        e == old(world).spec_len(),
        final(world).spec_len() == old(world).spec_len() + 1,
        spec_actor_at(*final(world), e as int, position, spec_monster_stats()),
        final(world).monsters@[e as int] is Some,
        final(world).blockers@[e as int] is Some,
        final(world).players@[e as int] is None,
        final(world).items@[e as int] is None,
        final(world).potions@[e as int] is None,
        final(world).names@[e as int] matches Some(nm) && (nm.name@ == "Orc"@ || nm.name@
            == "Goblin"@),
        forall|d: int|
            0 <= d < old(world).spec_len() ==> entity_unchanged(*old(world), *final(world), d),
        final(world).pending_deletes@ == old(world).pending_deletes@,
{
    let roll = rng_roll_dice(rng, 1, 2);
    if roll == 1 {
        orc(world, &position)
    } else {
        goblin(world, &position)
    }
}

/// Spawn a health potion at `position`.
pub fn health_potion(world: &mut World, position: &Position) -> (e: Entity)
    requires
        old(world).spec_wf(),
        old(world).spec_len() < usize::MAX,
    ensures
        final(world).spec_wf(),
        e == old(world).spec_len(),
        final(world).spec_len() == old(world).spec_len() + 1,
        final(world).alive@[e as int],
        final(world).positions@[e as int] == Some(*position),
        final(world).items@[e as int] is Some,
        final(world).potions@[e as int] == Some((Potion { heal_amount: 8 })),
        final(world).names@[e as int] matches Some(nm) && nm.name@ == "Health Potion"@,
        final(world).combat_stats@[e as int] is None,
        final(world).blockers@[e as int] is None,
        final(world).players@[e as int] is None,
        final(world).monsters@[e as int] is None,
        forall|d: int|
            0 <= d < old(world).spec_len() ==> entity_unchanged(*old(world), *final(world), d),
        final(world).pending_deletes@ == old(world).pending_deletes@,
{
    let e = world.create_entity();
    let ghost mid = *world;
    world.positions[e] = Some(*position);
    world.renderables[e] = Some(
        Renderable {
            glyph: 105,  // 'i' in code page 437
            fg: Rgb { r: 255, g: 0, b: 255 },
            bg: Rgb { r: 0, g: 0, b: 0 },
            render_order: 2,
        },
    );
    world.names[e] = Some(Name { name: "Health Potion".to_owned() });
    world.items[e] = Some(Item {  });
    world.potions[e] = Some(Potion { heal_amount: 8 });
    proof {
        assert forall|d: int|
            0 <= d < old(world).spec_len() implies entity_unchanged(*old(world), *world, d) by {
            assert(entity_unchanged(*old(world), mid, d));
        }
    }
    e
}

/// Shuffle `v` into a random order by repeatedly drawing a random remaining
/// element.  The result holds exactly the elements of the input, as a
/// multiset.
fn shuffle(v: &mut Vec<i32>, rng: &mut rltk::RandomNumberGenerator)
    requires
        old(v)@.len() < 1000000,
    ensures
        final(v)@.len() == old(v)@.len(),
        final(v)@.to_multiset() == old(v)@.to_multiset(),
{
    broadcast use group_to_multiset_ensures;

    let mut out: Vec<i32> = Vec::new();
    let ghost orig = v@;
    while v.len() > 0
        invariant
            orig.len() < 1000000,
            v@.len() + out@.len() == orig.len(),
            v@.to_multiset().add(out@.to_multiset()) =~= orig.to_multiset(),
        decreases v@.len(),
    {
        let j_raw = rng_range(rng, 0, v.len() as i32);
        let j = j_raw as usize;
        let ghost pre = v@;
        let ghost out_pre = out@;
        let x = v.remove(j);
        out.push(x);
        proof {
            broadcast use group_to_multiset_ensures;
            broadcast use vstd::multiset::group_multiset_axioms;

            assert(pre.contains(x)) by {
                assert(pre[j as int] == x);
            }
            assert(pre.to_multiset().count(x) > 0);
            assert(v@.to_multiset() =~= pre.to_multiset().remove(x)) by {
                assert(v@ == pre.remove(j as int));
                assert(pre.remove(j as int).to_multiset() =~= pre.to_multiset().remove(
                    pre[j as int],
                ));
            }
            assert(out@.to_multiset() =~= out_pre.to_multiset().insert(x)) by {
                assert(out@ == out_pre.push(x));
                assert(out_pre.push(x).to_multiset() =~= out_pre.to_multiset().insert(x));
            }
            assert(v@.to_multiset().add(out@.to_multiset()) =~= orig.to_multiset());
        }
    }
    proof {
        broadcast use group_to_multiset_ensures;
        broadcast use vstd::multiset::group_multiset_axioms;

        assert(v@.to_multiset().len() == 0);
        assert(v@.to_multiset().add(out@.to_multiset()) =~= out@.to_multiset());
    }
    *v = out;
}

/// Populate one generated room: shuffle its tile offsets, then place a random
/// number of monsters and potions on the first few offsets.  Every spawned
/// entity stands inside the room; existing entities are untouched.
#[verifier::spinoff_prover]
pub fn spawn_room(world: &mut World, rng: &mut rltk::RandomNumberGenerator, room: &Rect)
    requires
        old(world).spec_wf(),
        room.spec_wf(),
        room.spec_width() > 0,
        room.spec_height() > 0,
        room.spec_area() < 1000000,
        old(world).spec_len() + 8 < usize::MAX,
    ensures
        final(world).spec_wf(),
        old(world).spec_len() <= final(world).spec_len() <= old(world).spec_len() + 6,
        forall|d: int|
            0 <= d < old(world).spec_len() ==> entity_unchanged(*old(world), *final(world), d),
        forall|e: int|
            old(world).spec_len() <= e < final(world).spec_len() ==> final(world).alive@[e]
                && (final(world).positions@[e] matches Some(p) && room.spec_contains(p)),
        exists|m: int, pcount: int| spec_room_spawn_shape(*old(world), *final(world), m, pcount),
        final(world).pending_deletes@ == old(world).pending_deletes@,
{
    broadcast use group_to_multiset_ensures;

    let area = room.area();
    let mut room_positions: Vec<i32> = Vec::new();
    let mut ii: i32 = 0;
    while ii < area
        invariant
            0 <= ii <= area,
            area == room.spec_area(),
            room_positions@.len() == ii,
            forall|k: int| 0 <= k < ii ==> room_positions@[k] == k,
        decreases area - ii,
    {
        room_positions.push(ii);
        ii = ii + 1;
    }
    proof {
        assert(forall|k: int|
            0 <= k < room_positions@.len() ==> 0 <= #[trigger] room_positions@[k] < area);
    }
    let ghost before_shuffle = room_positions@;
    shuffle(&mut room_positions, rng);
    proof {
        broadcast use group_to_multiset_ensures;
        broadcast use vstd::multiset::group_multiset_axioms;

        assert forall|k: int|
            0 <= k < room_positions@.len() implies 0 <= #[trigger] room_positions@[k]
            < area by {
            let x = room_positions@[k];
            assert(room_positions@.contains(x)) by {
                assert(room_positions@[k] == x);
            }
            assert(room_positions@.to_multiset().count(x) > 0);
            assert(before_shuffle.to_multiset().count(x) > 0);
            assert(before_shuffle.contains(x));
            let jj = choose|jj: int| 0 <= jj < before_shuffle.len() && before_shuffle[jj] == x;
            assert(before_shuffle[jj] == jj);
        }
        assert(before_shuffle.no_duplicates());
        before_shuffle.lemma_multiset_has_no_duplicates();
        assert forall|x: i32|
            room_positions@.to_multiset().contains(x) implies room_positions@.to_multiset().count(
            x,
        ) == 1 by {
            assert(before_shuffle.to_multiset().count(x) == room_positions@.to_multiset().count(x));
            assert(before_shuffle.to_multiset().contains(x));
        }
        room_positions@.lemma_multiset_has_no_duplicates_conv();
        assert(room_positions@.no_duplicates());
    }

    let monster_count = rng_range(rng, 0, MAX_MONSTERS_PER_ROOM);
    let item_count = rng_range(rng, 0, MAX_ITEMS_PER_ROOM);

    let monster_points = if monster_count < area {
        monster_count
    } else {
        area
    };
    let mut k: i32 = 0;
    while k < monster_points
        invariant
            world.spec_wf(),
            0 <= k,
            k <= monster_points <= area == room.spec_area() < 1000000,
            monster_points <= 1,
            room.spec_wf(),
            room.spec_width() > 0,
            room_positions@.len() == area,
            forall|t: int| 0 <= t < area ==> 0 <= #[trigger] room_positions@[t] < area,
            old(world).spec_len() + 8 < usize::MAX,
            world.spec_len() == old(world).spec_len() + k,
            forall|d: int|
                0 <= d < old(world).spec_len() ==> entity_unchanged(*old(world), *world, d),
            forall|e: int|
                old(world).spec_len() <= e < world.spec_len() ==> world.alive@[e] && (
                world.positions@[e] matches Some(p) && room.spec_contains(p)),
            forall|e: int|
                old(world).spec_len() <= e < world.spec_len() ==> spec_spawned_monster(*world, e),
            world.pending_deletes@ == old(world).pending_deletes@,
        decreases monster_points - k,
    {
        let off = room_positions[k as usize];
        let p = room.idx_position(off as usize);
        let ghost prev_w = *world;
        random_monster(world, rng, p);
        proof {
            assert forall|d: int|
                0 <= d < old(world).spec_len() implies entity_unchanged(*old(world), *world, d) by {
                assert(entity_unchanged(*old(world), prev_w, d));
                assert(entity_unchanged(prev_w, *world, d));
            }
            assert forall|e: int|
                old(world).spec_len() <= e < world.spec_len() implies world.alive@[e] && (
            world.positions@[e] matches Some(q) && room.spec_contains(q)) && spec_spawned_monster(
                *world,
                e,
            ) by {
                if e < prev_w.spec_len() {
                    assert(entity_unchanged(prev_w, *world, e));
                    assert(spec_spawned_monster(prev_w, e));
                }
            }
        }
        k = k + 1;
    }

    let item_points = if item_count < area {
        item_count
    } else {
        area
    };
    let ghost base = old(world).spec_len() + monster_points as int;
    let mut t: i32 = 0;
    while t < item_points
        invariant
            world.spec_wf(),
            0 <= t,
            t <= item_points <= area == room.spec_area() < 1000000,
            item_points <= 3,
            0 <= monster_points <= 1,
            base == old(world).spec_len() + monster_points as int,
            room.spec_wf(),
            room.spec_width() > 0,
            room_positions@.len() == area,
            room_positions@.no_duplicates(),
            forall|q: int| 0 <= q < area ==> 0 <= #[trigger] room_positions@[q] < area,
            old(world).spec_len() + 8 < usize::MAX,
            world.spec_len() == base + t,
            forall|d: int|
                0 <= d < old(world).spec_len() ==> entity_unchanged(*old(world), *world, d),
            forall|e: int|
                old(world).spec_len() <= e < world.spec_len() ==> world.alive@[e] && (
                world.positions@[e] matches Some(p) && room.spec_contains(p)),
            forall|e: int|
                old(world).spec_len() <= e < base ==> spec_spawned_monster(*world, e),
            forall|e: int| base <= e < world.spec_len() ==> spec_spawned_potion(*world, e),
            forall|e: int|
                base <= e < world.spec_len() ==> (#[trigger] world.positions@[e] matches Some(p)
                    && spec_room_off(*room, p) == room_positions@[e - base]),
            world.pending_deletes@ == old(world).pending_deletes@,
        decreases item_points - t,
    {
        let off = room_positions[t as usize];
        let p = room.idx_position(off as usize);
        proof {
            vstd::arithmetic::div_mod::lemma_fundamental_div_mod(off as int, room.spec_width());
            assert(spec_room_off(*room, p) == off as int) by {
                assert((off as int / room.spec_width()) * room.spec_width() == room.spec_width() * (
                off as int / room.spec_width())) by (nonlinear_arith);
            }
        }
        let ghost prev_w = *world;
        health_potion(world, &p);
        proof {
            assert forall|d: int|
                0 <= d < old(world).spec_len() implies entity_unchanged(*old(world), *world, d) by {
                assert(entity_unchanged(*old(world), prev_w, d));
                assert(entity_unchanged(prev_w, *world, d));
            }
            assert forall|e: int|
                old(world).spec_len() <= e < world.spec_len() implies world.alive@[e] && (
            world.positions@[e] matches Some(q) && room.spec_contains(q)) by {
                if e < prev_w.spec_len() {
                    assert(entity_unchanged(prev_w, *world, e));
                }
            }
            assert forall|e: int|
                old(world).spec_len() <= e < base implies spec_spawned_monster(*world, e) by {
                assert(entity_unchanged(prev_w, *world, e));
                assert(spec_spawned_monster(prev_w, e));
            }
            assert forall|e: int|
                base <= e < world.spec_len() implies spec_spawned_potion(*world, e) && (
            #[trigger] world.positions@[e] matches Some(q) && spec_room_off(*room, q)
                == room_positions@[e - base]) by {
                if e < prev_w.spec_len() {
                    assert(entity_unchanged(prev_w, *world, e));
                    assert(spec_spawned_potion(prev_w, e));
                }
            }
        }
        t = t + 1;
    }
    proof {
        let m = monster_points as int;
        let pcount = item_points as int;
        assert forall|e1: int, e2: int|
            base <= e1 < e2 < world.spec_len() implies (#[trigger] world.positions@[e1]) != (
        #[trigger] world.positions@[e2]) by {
            assert(world.positions@[e1] matches Some(p1) && spec_room_off(*room, p1)
                == room_positions@[e1 - base]);
            assert(world.positions@[e2] matches Some(p2) && spec_room_off(*room, p2)
                == room_positions@[e2 - base]);
            assert(room_positions@[e1 - base] != room_positions@[e2 - base]);
        }
        assert(spec_room_spawn_shape(*old(world), *world, m, pcount));
    }
}

} // verus!
