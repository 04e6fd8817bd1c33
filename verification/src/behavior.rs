//! Non-player behavior, run once per monster during the monster phase: melee
//! the target when adjacent, else advance one step along a recomputed
//! shortest path while the target is in sight, else idle.

use vstd::prelude::*;
use crate::components::{Position, RunState, WantsToMelee};
use crate::map::{GameMap, positions_in_bounds};
use crate::pathfinding::{a_star_search, has_path, is_path, path_cost, step_ok};
use crate::visibility_system::spec_dist2;
use crate::world::{Entity, World, entity_unchanged};

verus! {

/// Does the position list contain `p`?
fn contains_position(v: &Vec<Position>, p: Position) -> (r: bool)
    ensures
        r == v@.contains(p),
{
    let n = v.len();
    let mut k: usize = 0;
    while k < n
        invariant
            n == v@.len(),
            k <= n,
            forall|m: int| 0 <= m < k ==> v@[m] != p,
        decreases n - k,
    {
        if v[k].x == p.x && v[k].y == p.y {
            proof {
                assert(v@[k as int] == p);
            }
            return true;
        }
        k = k + 1;
    }
    proof {
        if v@.contains(p) {
            let m = choose|m: int| 0 <= m < v@.len() && v@[m] == p;
            assert(v@[m] != p);
        }
    }
    false
}

/// Squared Euclidean distance between two positions.
pub fn dist2(p: Position, q: Position) -> (d: i64)
    requires
        -16384 <= p.x <= 16384,
        -16384 <= p.y <= 16384,
        -16384 <= q.x <= 16384,
        -16384 <= q.y <= 16384,
    ensures
        d == spec_dist2(p, q),
{
    let dx = (q.x - p.x) as i64;
    let dy = (q.y - p.y) as i64;
    proof {
        assert(0 <= dx * dx <= 32768 * 32768) by (nonlinear_arith)
            requires
                -32768 <= dx <= 32768,
        ;
        assert(0 <= dy * dy <= 32768 * 32768) by (nonlinear_arith)
            requires
                -32768 <= dy <= 32768,
        ;
    }
    dx * dx + dy * dy
}

/// Is entity `e` a behaving monster this tick: alive with a viewshed, the
/// monster tag and a position?
pub open spec fn spec_is_monster_actor(w: World, e: int) -> bool {
    &&& 0 <= e < w.spec_len()
    &&& w.alive@[e]
    &&& w.viewsheds@[e] is Some
    &&& w.monsters@[e] is Some
    &&& w.positions@[e] is Some
}

/// One behavior pass over every monster, during the monster phase only.
///
/// Decision order per monster, each evaluated against the state it sees when
/// reached: if the Euclidean distance to the target is below the melee
/// threshold of one and a half tiles (squared distance at most 2, adjacency
/// including diagonals), attach a melee intent and stand still; else if the
/// target's tile is inside the monster's visible set, search for a path and,
/// when one exists, step onto its first intermediate tile and mark the
/// viewshed dirty; else idle.  A monster that sees the target but has no
/// passable route neither moves nor dirties its viewshed.  Outside the
/// monster phase nothing changes.
#[verifier::rlimit(100)]
pub fn monster_ai(
    world: &mut World,
    map: &GameMap,
    player_pos: Position,
    player_entity: Entity,
    run_state: RunState,
)
    requires
        old(world).spec_wf(),
        map.spec_wf(),
        positions_in_bounds(*old(world), *map),
        map.spec_in_bounds(player_pos),
    ensures
        final(world).spec_wf(),
        final(world).spec_len() == old(world).spec_len(),
        positions_in_bounds(*final(world), *map),
        run_state != RunState::MonsterTurn ==> *final(world) == *old(world),
        final(world).alive@ == old(world).alive@,
        final(world).renderables@ == old(world).renderables@,
        final(world).names@ == old(world).names@,
        final(world).combat_stats@ == old(world).combat_stats@,
        final(world).players@ == old(world).players@,
        final(world).monsters@ == old(world).monsters@,
        final(world).blockers@ == old(world).blockers@,
        final(world).items@ == old(world).items@,
        final(world).potions@ == old(world).potions@,
        final(world).backpacks@ == old(world).backpacks@,
        final(world).suffer_damage@ == old(world).suffer_damage@,
        final(world).pickup_intents@ == old(world).pickup_intents@,
        final(world).consume_intents@ == old(world).consume_intents@,
        final(world).pending_deletes@ == old(world).pending_deletes@,
        forall|e: int|
            0 <= e < old(world).spec_len() && !spec_is_monster_actor(*old(world), e)
                ==> entity_unchanged(*old(world), *final(world), e),
        run_state == RunState::MonsterTurn ==> forall|e: int|
            0 <= e < old(world).spec_len() && #[trigger] spec_is_monster_actor(*old(world), e)
                ==> spec_monster_acted(*old(world), *final(world), *map, player_pos, player_entity, e),
{
    let n = world.alive.len();
    let mut e: usize = 0;
    while e < n
        invariant
            world.spec_wf(),
            old(world).spec_wf(),
            map.spec_wf(),
            positions_in_bounds(*old(world), *map),
            map.spec_in_bounds(player_pos),
            n == old(world).spec_len(),
            world.spec_len() == n,
            e <= n,
            run_state != RunState::MonsterTurn ==> *world == *old(world),
            world.alive@ == old(world).alive@,
            world.renderables@ == old(world).renderables@,
            world.names@ == old(world).names@,
            world.combat_stats@ == old(world).combat_stats@,
            world.players@ == old(world).players@,
            world.monsters@ == old(world).monsters@,
            world.blockers@ == old(world).blockers@,
            world.items@ == old(world).items@,
            world.potions@ == old(world).potions@,
            world.backpacks@ == old(world).backpacks@,
            world.suffer_damage@ == old(world).suffer_damage@,
            world.pickup_intents@ == old(world).pickup_intents@,
            world.consume_intents@ == old(world).consume_intents@,
            world.pending_deletes@ == old(world).pending_deletes@,
            positions_in_bounds(*world, *map),
            forall|d: int|
                0 <= d < n && !spec_is_monster_actor(*old(world), d) ==> entity_unchanged(
                    *old(world),
                    *world,
                    d,
                ),
            forall|d: int|
                e <= d < n ==> entity_unchanged(*old(world), *world, d),
            run_state == RunState::MonsterTurn ==> forall|d: int|
                0 <= d < e && #[trigger] spec_is_monster_actor(*old(world), d)
                    ==> spec_monster_acted(
                    *old(world),
                    *world,
                    *map,
                    player_pos,
                    player_entity,
                    d,
                ),
        decreases n - e,
    {
        let mut is_actor = false;
        let mut pos = Position { x: 0, y: 0 };
        if world.alive[e] {
            if world.viewsheds[e].is_some() && world.monsters[e].is_some() {
                if let Some(p) = &world.positions[e] {
                    is_actor = true;
                    pos = *p;
                }
            }
        }
        if is_actor {
            if run_state != RunState::MonsterTurn {
                return ;
            }
            proof {
                assert(entity_unchanged(*old(world), *world, e as int));
                assert(spec_is_monster_actor(*old(world), e as int));
            }
            let ghost w_pre = *world;
            let d2 = dist2(pos, player_pos);
            if d2 <= 2 {
                world.melee_intents[e] = Some(WantsToMelee { target: player_entity });
            } else {
                let sees = match &world.viewsheds[e] {
                    Some(v) => contains_position(&v.visible_tiles, player_pos),
                    None => false,
                };
                if sees {
                    let start = map.position_idx(pos);
                    let goal = map.position_idx(player_pos);
                    let path = a_star_search(map, start, goal);
                    match path {
                        Some(steps) => {
                            proof {
                                assert(is_path(*map, steps@, start, goal));
                                assert(has_path(*map, start, goal));
                            }
                            if steps.len() > 1 {
                                let next = steps[1];
                                proof {
                                    assert(step_ok(*map, steps@[0] as int, steps@[1] as int));
                                }
                                let new_pos = map.size.idx_position(next);
                                proof {
                                    crate::rect::lemma_idx_encode_unique(
                                        map.size,
                                        next as int,
                                        new_pos.x as int,
                                        new_pos.y as int,
                                    );
                                    assert(map.spec_position_idx(new_pos) == steps@[1]);
                                    assert(spec_min_path_step(*map, start, goal, new_pos));
                                }
                                world.positions[e] = Some(new_pos);
                                let dirty_range = match &world.viewsheds[e] {
                                    Some(v) => v.range,
                                    None => 0,
                                };
                                let mut moved_vs = match world.viewsheds[e].take() {
                                    Some(v) => v,
                                    None => crate::components::Viewshed {
                                        visible_tiles: Vec::new(),
                                        range: dirty_range,
                                        dirty: true,
                                    },
                                };
                                moved_vs.dirty = true;
                                world.viewsheds[e] = Some(moved_vs);
                            } else {
                                proof {
                                    assert(steps@[0] == steps@[steps@.len() - 1]);
                                    assert(start == goal);
                                }
                            }
                        },
                        None => {
                            proof {
                                assert(!has_path(*map, start, goal));
                            }
                        },
                    }
                }
            }
            proof {
                assert forall|d: int|
                    0 <= d < n && d != e as int implies entity_unchanged(*old(world), *world, d)
                    || !entity_unchanged(*old(world), w_pre, d) by {
                    if entity_unchanged(*old(world), w_pre, d) {
                        assert(entity_unchanged(w_pre, *world, d));
                        assert(entity_unchanged(*old(world), *world, d));
                    }
                }
                assert forall|d: int|
                    (e as int) < d && d < n implies entity_unchanged(*old(world), *world, d) by {
                    assert(entity_unchanged(*old(world), w_pre, d));
                    assert(entity_unchanged(w_pre, *world, d));
                }
                assert(spec_monster_acted(
                    *old(world),
                    *world,
                    *map,
                    player_pos,
                    player_entity,
                    e as int,
                ));
                if run_state == RunState::MonsterTurn {
                    assert forall|d: int|
                        0 <= d < e && #[trigger] spec_is_monster_actor(*old(world), d) implies spec_monster_acted(
                        *old(world),
                        *world,
                        *map,
                        player_pos,
                        player_entity,
                        d,
                    ) by {
                        assert(spec_monster_acted(
                            *old(world),
                            w_pre,
                            *map,
                            player_pos,
                            player_entity,
                            d,
                        ));
                        assert(world.melee_intents@[d] == w_pre.melee_intents@[d]);
                        assert(world.positions@[d] == w_pre.positions@[d]);
                        assert(world.viewsheds@[d] == w_pre.viewsheds@[d]);
                    }
                }
            }
        } else {
            proof {
                assert(entity_unchanged(*old(world), *world, e as int));
                assert(!spec_is_monster_actor(*old(world), e as int));
            }
        }
        e = e + 1;
    }
}

/// The tile `np` is the first intermediate tile of some minimal-weight walk
/// from `start` to `goal`.
pub open spec fn spec_min_path_step(map: GameMap, start: usize, goal: usize, np: Position) -> bool {
    exists|p: Seq<Entity>|
        is_path(map, p, start, goal) && (forall|q: Seq<Entity>|
            is_path(map, q, start, goal) ==> path_cost(map, q) >= path_cost(map, p)) && p.len() > 1
            && map.spec_position_idx(np) == p[1]
}

/// What one behaving monster did, relating its attributes before the pass to
/// afterwards: adjacent targets are attacked in place; a visible, reachable
/// target draws the monster onto the first intermediate tile of a
/// minimal-weight route, with its viewshed marked dirty; a visible but
/// unreachable target, or an unseen one, leaves the monster entirely
/// unchanged.
pub open spec fn spec_monster_acted(
    w1: World,
    w2: World,
    map: GameMap,
    player_pos: Position,
    player_entity: Entity,
    e: int,
) -> bool {
    let pos = w1.positions@[e]->Some_0;
    let start = map.spec_position_idx(pos);
    let goal = map.spec_position_idx(player_pos);
    if spec_dist2(pos, player_pos) <= 2 {
        &&& w2.melee_intents@[e] == Some(WantsToMelee { target: player_entity })
        &&& w2.positions@[e] == w1.positions@[e]
        &&& w2.viewsheds@[e] == w1.viewsheds@[e]
    } else if (w1.viewsheds@[e]->Some_0).visible_tiles@.contains(player_pos) {
        if has_path(map, start as usize, goal as usize) {
            &&& w2.melee_intents@[e] == w1.melee_intents@[e]
            &&& (w2.positions@[e] matches Some(np) && (start == goal || (step_ok(
                map,
                start,
                map.spec_position_idx(np),
            ) && spec_min_path_step(map, start as usize, goal as usize, np) && (
            w2.viewsheds@[e] matches Some(nv) && nv.dirty && nv.range == (
            w1.viewsheds@[e]->Some_0).range && nv.visible_tiles
                == (w1.viewsheds@[e]->Some_0).visible_tiles))))
        } else {
            &&& w2.melee_intents@[e] == w1.melee_intents@[e]
            &&& w2.positions@[e] == w1.positions@[e]
            &&& w2.viewsheds@[e] == w1.viewsheds@[e]
        }
    } else {
        &&& w2.melee_intents@[e] == w1.melee_intents@[e]
        &&& w2.positions@[e] == w1.positions@[e]
        &&& w2.viewsheds@[e] == w1.viewsheds@[e]
    }
}

} // verus!
