//! Player-driven actions: decoded input applied to the world, with movement
//! clamped to the map interior and bump-attacks on occupied tiles.

use vstd::prelude::*;
use crate::components::{Position, WantsToMelee, WantsToPickupItem, range, spec_clamp};
use crate::gamelog::GameLog;
use crate::map::{GameMap, positions_in_bounds};
use crate::world::{Entity, World, entity_unchanged};

verus! {

/// One decoded player input, as handed in by the input collaborator.
#[derive(Clone, Copy, PartialEq, Eq, Structural, Debug)]
pub enum PlayerMove {
    Move(i32, i32),
    PickupItem,
    OpenInventory,
    UseItem(Entity),
    Cancel,
    NoInput,
}

/// Entity `e` is a movable player: alive with the player tag, a position and
/// a viewshed.
pub open spec fn spec_player_actor(w: World, e: int) -> bool {
    &&& 0 <= e < w.spec_len()
    &&& w.alive@[e]
    &&& w.players@[e] is Some
    &&& w.positions@[e] is Some
    &&& w.viewsheds@[e] is Some
}

/// `e` is the only movable player.
pub open spec fn spec_sole_player(w: World, e: int) -> bool {
    spec_player_actor(w, e) && (forall|d: int|
        0 <= d < w.spec_len() && d != e ==> !spec_player_actor(w, d))
}

/// The first entity of an occupancy list that carries combat stats: the
/// bump-attack target of a move onto that tile.
pub open spec fn spec_first_combatant(w: World, s: Seq<Entity>) -> Option<Entity>
    decreases s.len(),
{
    if s.len() == 0 {
        None
    } else if s[0] < w.spec_len() && w.combat_stats@[s[0] as int] is Some {
        Some(s[0])
    } else {
        spec_first_combatant(w, s.drop_first())
    }
}

/// Extending the scanned prefix keeps an already-found combatant and
/// otherwise considers exactly the next entry.
proof fn lemma_first_combatant_step(w: World, s: Seq<Entity>, k: int)
    requires
        0 <= k < s.len(),
    ensures
        spec_first_combatant(w, s.take(k + 1)) == (match spec_first_combatant(w, s.take(k)) {
            Some(t) => Some(t),
            None => if s[k] < w.spec_len() && w.combat_stats@[s[k] as int] is Some {
                Some(s[k])
            } else {
                None
            },
        }),
    decreases k,
{
    if k == 0 {
        assert(s.take(1) =~= seq![s[0]]);
        assert(s.take(0) =~= Seq::<Entity>::empty());
        assert(s.take(1).drop_first() =~= Seq::<Entity>::empty());
    } else {
        assert(s.take(k + 1)[0] == s[0]);
        assert(s.take(k)[0] == s[0]);
        if s[0] < w.spec_len() && w.combat_stats@[s[0] as int] is Some {
        } else {
            assert(s.take(k + 1).drop_first() =~= s.drop_first().take(k));
            assert(s.take(k).drop_first() =~= s.drop_first().take(k - 1));
            lemma_first_combatant_step(w, s.drop_first(), k - 1);
        }
    }
}

/// What a move request does for the sole player `e`: the destination is the
/// current position displaced by the deltas, clamped to the map interior; a
/// combat-capable occupant of that tile draws a melee intent instead of a
/// move; an unblocked tile is stepped onto, updating the shared player
/// position and dirtying the viewshed; a blocked tile leaves everything
/// unchanged.
pub open spec fn spec_player_moved(
    w1: World,
    w2: World,
    map: GameMap,
    pp1: Position,
    pp2: Position,
    dx: int,
    dy: int,
    e: int,
) -> bool {
    let pos = w1.positions@[e]->Some_0;
    let nx = spec_clamp(1, pos.x + dx, map.size.spec_width() - 1);
    let ny = spec_clamp(1, pos.y + dy, map.size.spec_height() - 1);
    let idx = map.size.spec_xy_idx(nx, ny);
    match spec_first_combatant(w1, map.tile_content@[idx]@) {
        Some(t) => {
            &&& w2.melee_intents@[e] == Some(WantsToMelee { target: t })
            &&& w2.positions@[e] == w1.positions@[e]
            &&& w2.viewsheds@[e] == w1.viewsheds@[e]
            &&& pp2 == pp1
        },
        None => if !map.blocked@[idx] {
            &&& w2.positions@[e] matches Some(np) && np.x == nx && np.y == ny
            &&& pp2.x == nx && pp2.y == ny
            &&& (w2.viewsheds@[e] matches Some(nv) && nv.dirty && nv.range == (
            w1.viewsheds@[e]->Some_0).range && nv.visible_tiles == (
            w1.viewsheds@[e]->Some_0).visible_tiles)
            &&& w2.melee_intents@[e] == w1.melee_intents@[e]
        } else {
            &&& w2.positions@[e] == w1.positions@[e]
            &&& w2.viewsheds@[e] == w1.viewsheds@[e]
            &&& w2.melee_intents@[e] == w1.melee_intents@[e]
            &&& pp2 == pp1
        },
    }
}

/// Try to move the player by the given deltas: bump-attack the first
/// combat-capable occupant of the destination tile, else step onto it when
/// unblocked, clamping the destination to the map interior.  With a single
/// player the effect is pinned exactly by `spec_player_moved`.
#[verifier::rlimit(100)]
pub fn try_move_player(
    delta_x: i32,
    delta_y: i32,
    world: &mut World,
    map: &GameMap,
    player_pos: &mut Position,
)
    requires
        old(world).spec_wf(),
        map.spec_wf(),
        positions_in_bounds(*old(world), *map),
        map.size.spec_width() >= 3,
        map.size.spec_height() >= 3,
        -4096 <= delta_x <= 4096,
        -4096 <= delta_y <= 4096,
    ensures
        final(world).spec_wf(),
        final(world).spec_len() == old(world).spec_len(),
        positions_in_bounds(*final(world), *map),
        final(world).alive@ == old(world).alive@,
        final(world).renderables@ == old(world).renderables@,
        final(world).names@ == old(world).names@,
        final(world).combat_stats@ == old(world).combat_stats@,
        final(world).players@ == old(world).players@,
        final(world).monsters@ == old(world).monsters@,
        final(world).blockers@ == old(world).blockers@,
        final(world).items@ == old(world).items@,
        final(world).potions@ == old(world).potions@,
        final(world).backpacks@ == old(world).backpacks@,
        final(world).suffer_damage@ == old(world).suffer_damage@,
        final(world).pickup_intents@ == old(world).pickup_intents@,
        final(world).consume_intents@ == old(world).consume_intents@,
        final(world).pending_deletes@ == old(world).pending_deletes@,
        *final(player_pos) == *old(player_pos) || map.spec_in_bounds(*final(player_pos)),
        forall|e: int|
            0 <= e < old(world).spec_len() && !spec_player_actor(*old(world), e)
                ==> entity_unchanged(*old(world), *final(world), e),
        forall|e: int|
            spec_sole_player(*old(world), e) ==> spec_player_moved(
                *old(world),
                *final(world),
                *map,
                *old(player_pos),
                *final(player_pos),
                delta_x as int,
                delta_y as int,
                e,
            ),
{
    let n = world.alive.len();
    let mut e: usize = 0;
    while e < n
        invariant
            world.spec_wf(),
            old(world).spec_wf(),
            map.spec_wf(),
            positions_in_bounds(*old(world), *map),
            positions_in_bounds(*world, *map),
            map.size.spec_width() >= 3,
            map.size.spec_height() >= 3,
            -4096 <= delta_x <= 4096,
            -4096 <= delta_y <= 4096,
            n == old(world).spec_len(),
            world.spec_len() == n,
            e <= n,
            world.alive@ == old(world).alive@,
            world.renderables@ == old(world).renderables@,
            world.names@ == old(world).names@,
            world.combat_stats@ == old(world).combat_stats@,
            world.players@ == old(world).players@,
            world.monsters@ == old(world).monsters@,
            world.blockers@ == old(world).blockers@,
            world.items@ == old(world).items@,
            world.potions@ == old(world).potions@,
            world.backpacks@ == old(world).backpacks@,
            world.suffer_damage@ == old(world).suffer_damage@,
            world.pickup_intents@ == old(world).pickup_intents@,
            world.consume_intents@ == old(world).consume_intents@,
            world.pending_deletes@ == old(world).pending_deletes@,
            *player_pos == *old(player_pos) || map.spec_in_bounds(*player_pos),
            forall|d: int|
                0 <= d < n && !spec_player_actor(*old(world), d) ==> entity_unchanged(
                    *old(world),
                    *world,
                    d,
                ),
            forall|d: int| e <= d < n ==> entity_unchanged(*old(world), *world, d),
            forall|d: int|
                spec_sole_player(*old(world), d) && d >= e ==> *world == *old(world) && *player_pos
                    == *old(player_pos),
            forall|d: int|
                spec_sole_player(*old(world), d) && d < e ==> spec_player_moved(
                    *old(world),
                    *world,
                    *map,
                    *old(player_pos),
                    *player_pos,
                    delta_x as int,
                    delta_y as int,
                    d,
                ),
        decreases n - e,
    {
        let mut is_actor = false;
        let mut pos = Position { x: 0, y: 0 };
        if world.alive[e] {
            if world.players[e].is_some() && world.viewsheds[e].is_some() {
                if let Some(p) = &world.positions[e] {
                    is_actor = true;
                    pos = *p;
                }
            }
        }
        if is_actor {
            proof {
                assert(entity_unchanged(*old(world), *world, e as int));
                assert(spec_player_actor(*old(world), e as int));
                assert forall|d: int|
                    spec_sole_player(*old(world), d) implies d == e as int by {
                    if d != e as int {
                        assert(!spec_player_actor(*old(world), e as int));
                    }
                }
            }
            let ghost w_pre = *world;
            let ghost pp_pre = *player_pos;
            let width = map.size.width();
            let height = map.size.height();
            let nx = range(1, pos.x + delta_x, width - 1);
            let ny = range(1, pos.y + delta_y, height - 1);
            let destination_idx = map.xy_idx(nx, ny);
            let ghost content = map.tile_content@[destination_idx as int]@;

            let mut target: Option<Entity> = None;
            let content_len = map.tile_content[destination_idx].len();
            let mut k: usize = 0;
            while k < content_len
                invariant
                    world.spec_wf(),
                    world.spec_len() == n,
                    n == old(world).spec_len(),
                    world.combat_stats@ == old(world).combat_stats@,
                    map.spec_wf(),
                    destination_idx < map.size.spec_area(),
                    content == map.tile_content@[destination_idx as int]@,
                    content_len == content.len(),
                    k <= content_len,
                    target == spec_first_combatant(*old(world), content.take(k as int)),
                decreases content_len - k,
            {
                proof {
                    lemma_first_combatant_step(*old(world), content, k as int);
                }
                if target.is_none() {
                    let potential = map.tile_content[destination_idx][k];
                    if potential < n && world.combat_stats[potential].is_some() {
                        target = Some(potential);
                    }
                }
                k = k + 1;
            }
            proof {
                assert(content.take(content_len as int) =~= content);
            }

            match target {
                Some(t) => {
                    world.melee_intents[e] = Some(WantsToMelee { target: t });
                    proof {
                        assert forall|d: int|
                            0 <= d < n && !spec_player_actor(*old(world), d) implies entity_unchanged(
                            *old(world),
                            *world,
                            d,
                        ) by {
                            assert(entity_unchanged(*old(world), w_pre, d));
                            assert(entity_unchanged(w_pre, *world, d));
                        }
                        assert forall|d: int|
                            spec_sole_player(*old(world), d) implies spec_player_moved(
                            *old(world),
                            *world,
                            *map,
                            *old(player_pos),
                            *player_pos,
                            delta_x as int,
                            delta_y as int,
                            d,
                        ) by {
                            assert(d == e as int);
                            assert(w_pre == *old(world));
                            assert(pp_pre == *old(player_pos));
                        }
                        assert forall|d: int|
                            0 <= d < n implies (#[trigger] world.positions@[d] matches Some(q)
                            ==> map.spec_in_bounds(q)) by {
                            assert(world.positions@[d] == w_pre.positions@[d]);
                            assert(w_pre.positions@[d] matches Some(q2) ==> map.spec_in_bounds(q2));
                        }
                    }
                    return ;
                },
                None => {
                    if !map.blocked[destination_idx] {
                        world.positions[e] = Some(Position { x: nx, y: ny });
                        let mut vs = match world.viewsheds[e].take() {
                            Some(v) => v,
                            None => crate::components::Viewshed {
                                visible_tiles: Vec::new(),
                                range: 0,
                                dirty: true,
                            },
                        };
                        vs.dirty = true;
                        world.viewsheds[e] = Some(vs);
                        player_pos.x = nx;
                        player_pos.y = ny;
                    }
                },
            }
            proof {
                assert forall|d: int|
                    0 <= d < n && d != e as int implies entity_unchanged(w_pre, *world, d) by {}
                assert forall|d: int|
                    0 <= d < n && !spec_player_actor(*old(world), d) implies entity_unchanged(
                    *old(world),
                    *world,
                    d,
                ) by {
                    assert(entity_unchanged(*old(world), w_pre, d));
                    assert(entity_unchanged(w_pre, *world, d));
                }
                assert forall|d: int|
                    (e as int) < d && d < n implies entity_unchanged(*old(world), *world, d) by {
                    assert(entity_unchanged(*old(world), w_pre, d));
                    assert(entity_unchanged(w_pre, *world, d));
                }
                assert forall|d: int|
                    spec_sole_player(*old(world), d) && d < e + 1 implies spec_player_moved(
                    *old(world),
                    *world,
                    *map,
                    *old(player_pos),
                    *player_pos,
                    delta_x as int,
                    delta_y as int,
                    d,
                ) by {
                    assert(d == e as int);
                    assert(w_pre == *old(world));
                    assert(pp_pre == *old(player_pos));
                }
                assert forall|d: int|
                    0 <= d < n implies (#[trigger] world.positions@[d] matches Some(q)
                    ==> map.spec_in_bounds(q)) by {
                    if d != e as int {
                        assert(world.positions@[d] == w_pre.positions@[d]);
                        assert(w_pre.positions@[d] matches Some(q2) ==> map.spec_in_bounds(q2));
                    }
                }
            }
        } else {
            proof {
                assert(entity_unchanged(*old(world), *world, e as int));
                assert(!spec_player_actor(*old(world), e as int));
            }
        }
        e = e + 1;
    }
}

/// Entity `e` is a live item lying at `pos`.
pub open spec fn spec_item_at(w: World, e: int, pos: Position) -> bool {
    &&& 0 <= e < w.spec_len()
    &&& w.alive@[e]
    &&& w.items@[e] is Some
    &&& w.positions@[e] == Some(pos)
}

/// The last live item lying at `pos` among entities below `upto`: the one a
/// pickup request takes.
pub open spec fn spec_last_item(w: World, pos: Position, upto: int) -> Option<Entity>
    decreases upto,
{
    if upto <= 0 {
        None
    } else if spec_item_at(w, upto - 1, pos) {
        Some((upto - 1) as usize)
    } else {
        spec_last_item(w, pos, upto - 1)
    }
}

/// Request a pickup at the player's tile: if some live item lies there, the
/// player gains a pickup intent for the last such item; otherwise a log
/// entry says there is nothing to pick up and the store is untouched.
pub fn get_item(world: &mut World, player_pos: Position, player_entity: Entity, log: &mut GameLog)
    requires
        old(world).spec_wf(),
        player_entity < old(world).spec_len(),
    ensures
        final(world).spec_wf(),
        final(world).spec_len() == old(world).spec_len(),
        spec_last_item(*old(world), player_pos, old(world).spec_len()) is None ==> *final(world)
            == *old(world) && final(log).entries@.len() == old(log).entries@.len() + 1 && (final(log).entries@.last())@ == "There is nothing here to pick up."@ && (forall|k: int|
            0 <= k < old(log).entries@.len() ==> #[trigger] final(log).entries@[k] == old(log).entries@[k]),
        spec_last_item(*old(world), player_pos, old(world).spec_len()) matches Some(it) ==> final(world).pickup_intents@[player_entity as int] == Some(
            WantsToPickupItem { collected_by: player_entity, item: it },
        ) && *final(log) == *old(log) && (forall|d: int|
            0 <= d < old(world).spec_len() && d != player_entity ==> entity_unchanged(
                *old(world),
                *final(world),
                d,
            )) && final(world).positions@ == old(world).positions@ && final(world).alive@ == old(world).alive@ && final(world).items@ == old(world).items@ && final(world).combat_stats@ == old(world).combat_stats@ && final(world).players@ == old(world).players@ && final(world).potions@ == old(world).potions@ && final(world).pending_deletes@ == old(world).pending_deletes@ && final(world).viewsheds@ == old(world).viewsheds@,
{
    let n = world.alive.len();
    let mut target_item: Option<Entity> = None;
    let mut e: usize = 0;
    while e < n
        invariant
            world.spec_wf(),
            n == world.spec_len(),
            e <= n,
            target_item == spec_last_item(*world, player_pos, e as int),
        decreases n - e,
    {
        let mut here = false;
        if world.alive[e] {
            if world.items[e].is_some() {
                if let Some(p) = &world.positions[e] {
                    if p.x == player_pos.x && p.y == player_pos.y {
                        here = true;
                        proof {
                            assert(world.positions@[e as int] == Some(player_pos));
                        }
                    }
                }
            }
        }
        if here {
            target_item = Some(e);
        }
        e = e + 1;
    }
    match target_item {
        None => {
            log.entries.push("There is nothing here to pick up.".to_owned());
        },
        Some(item) => {
            world.pickup_intents[player_entity] = Some(
                WantsToPickupItem { collected_by: player_entity, item },
            );
        },
    }
}

} // verus!
