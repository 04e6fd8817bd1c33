//! The spatial index rebuild: each tick the blocking mask is reset to the
//! Wall mask and re-marked from current blocking occupants, and the per-tile
//! occupancy lists are rebuilt from scratch, so they never hold stale
//! entities.

use vstd::prelude::*;
use vstd::seq_lib::lemma_seq_contains_after_push;
use crate::map::{GameMap, TileType, positions_in_bounds};
use crate::world::{Entity, World};

verus! {

/// Entity `e` is alive and stands on tile `i` of `map`.
pub open spec fn spec_occupant_at(w: World, map: GameMap, e: int, i: int) -> bool {
    &&& 0 <= e < w.spec_len()
    &&& w.alive@[e]
    &&& w.positions@[e] matches Some(p) && map.spec_position_idx(p) == i
}

/// Entity `e` is alive, blocks its tile, and stands on tile `i` of `map`.
pub open spec fn spec_blocker_at(w: World, map: GameMap, e: int, i: int) -> bool {
    spec_occupant_at(w, map, e, i) && w.blockers@[e] is Some
}

/// Rebuild the spatial index from current positions.
///
/// Afterwards a tile is blocked exactly when it is a Wall or carries a live
/// `BlocksTile` occupant, and a tile's occupancy list holds exactly the live
/// entities standing on it.
#[verifier::rlimit(100)]
pub fn run_map_indexing(world: &World, map: &mut GameMap)
    requires
        world.spec_wf(),
        old(map).spec_wf(),
        positions_in_bounds(*world, *old(map)),
    ensures
        final(map).spec_wf(),
        final(map).size == old(map).size,
        final(map).tiles@ == old(map).tiles@,
        final(map).rooms@ == old(map).rooms@,
        final(map).revealed_tiles@ == old(map).revealed_tiles@,
        final(map).visible_tiles@ == old(map).visible_tiles@,
        forall|i: int|
            0 <= i < old(map).size.spec_area() ==> (final(map).blocked@[i] <==> (old(map).tiles@[i] == TileType::Wall || exists|e: int|
                spec_blocker_at(*world, *old(map), e, i))),
        forall|i: int, e: Entity|
            0 <= i < old(map).size.spec_area() ==> (#[trigger] final(map).tile_content@[i]@.contains(e) <==> spec_occupant_at(*world, *old(map), e as int, i)),
        forall|i: int, k1: int, k2: int|
            0 <= i < old(map).size.spec_area() && 0 <= k1 < k2 < final(map).tile_content@[i]@.len()
                ==> (#[trigger] final(map).tile_content@[i]@[k1]) != (#[trigger] final(map).tile_content@[i]@[k2]),
{
    map.populate_blocked();
    map.clear_content_index();
    let n = world.alive.len();
    let mut e: usize = 0;
    while e < n
        invariant
            world.spec_wf(),
            map.spec_wf(),
            old(map).spec_wf(),
            positions_in_bounds(*world, *old(map)),
            n == world.spec_len(),
            e <= n,
            map.size == old(map).size,
            map.tiles@ == old(map).tiles@,
            map.rooms@ == old(map).rooms@,
            map.revealed_tiles@ == old(map).revealed_tiles@,
            map.visible_tiles@ == old(map).visible_tiles@,
            forall|i: int|
                0 <= i < old(map).size.spec_area() ==> (map.blocked@[i] <==> (old(map).tiles@[i]
                    == TileType::Wall || exists|d: int|
                    d < e && spec_blocker_at(*world, *old(map), d, i))),
            forall|i: int, d: Entity|
                0 <= i < old(map).size.spec_area() ==> (#[trigger] map.tile_content@[i]@.contains(
                    d,
                ) <==> (d < e && spec_occupant_at(*world, *old(map), d as int, i))),
            forall|i: int, k: int|
                0 <= i < old(map).size.spec_area() && 0 <= k < map.tile_content@[i]@.len()
                    ==> (#[trigger] map.tile_content@[i]@[k]) < e,
            forall|i: int, k1: int, k2: int|
                0 <= i < old(map).size.spec_area() && 0 <= k1 < k2 < map.tile_content@[i]@.len()
                    ==> (#[trigger] map.tile_content@[i]@[k1]) != (#[trigger] map.tile_content@[i]@[k2]),
        decreases n - e,
    {
        let mut has_pos = false;
        let mut pos = crate::components::Position { x: 0, y: 0 };
        if world.alive[e] {
            if let Some(p) = &world.positions[e] {
                has_pos = true;
                pos = *p;
            }
        }
        let ghost m_pre = *map;
        if has_pos {
            let idx = map.position_idx(pos);
            let is_blocker = match &world.blockers[e] {
                Some(_) => true,
                None => false,
            };
            if is_blocker {
                map.blocked[idx] = true;
            }
            let slot = &mut map.tile_content[idx];
            slot.push(e);
            proof {
                broadcast use lemma_seq_contains_after_push;

                assert forall|i: int, k: int|
                    0 <= i < old(map).size.spec_area() && 0 <= k < map.tile_content@[i]@.len()
                        implies (#[trigger] map.tile_content@[i]@[k]) < e + 1 by {
                    if i == idx as int && k == m_pre.tile_content@[i]@.len() {
                    } else {
                        assert(map.tile_content@[i]@[k] == m_pre.tile_content@[i]@[k]);
                    }
                }

                assert(map.tile_content@[idx as int]@ == m_pre.tile_content@[idx as int]@.push(e));
                assert(spec_occupant_at(*world, *old(map), e as int, idx as int));
                if is_blocker {
                    assert(spec_blocker_at(*world, *old(map), e as int, idx as int));
                }
                assert forall|i: int|
                    0 <= i < old(map).size.spec_area() implies (map.blocked@[i] <==> (old(map).tiles@[i] == TileType::Wall || exists|d: int|
                    d < e + 1 && spec_blocker_at(*world, *old(map), d, i))) by {
                    if map.blocked@[i] {
                        if !(old(map).tiles@[i] == TileType::Wall) {
                            if m_pre.blocked@[i] {
                                let d0 = choose|d0: int|
                                    d0 < e && spec_blocker_at(*world, *old(map), d0, i);
                                assert(d0 < e + 1 && spec_blocker_at(*world, *old(map), d0, i));
                            } else {
                                assert(i == idx as int && is_blocker);
                                assert(e < e + 1 && spec_blocker_at(*world, *old(map), e as int, i));
                            }
                        }
                    } else {
                        assert(!m_pre.blocked@[i]);
                        assert(!(exists|d: int| d < e && spec_blocker_at(*world, *old(map), d, i)));
                        if exists|d: int| d < e + 1 && spec_blocker_at(*world, *old(map), d, i) {
                            let d0 = choose|d0: int|
                                d0 < e + 1 && spec_blocker_at(*world, *old(map), d0, i);
                            assert(d0 == e as int);
                            assert(i == idx as int);
                            assert(is_blocker && map.blocked@[i]);
                        }
                    }
                }
            }
        }
        proof {
            if !has_pos {
                assert forall|i: int|
                    0 <= i < old(map).size.spec_area() implies (map.blocked@[i] <==> (old(map).tiles@[i] == TileType::Wall || exists|d: int|
                    d < e + 1 && spec_blocker_at(*world, *old(map), d, i))) by {
                    if exists|d: int| d < e + 1 && spec_blocker_at(*world, *old(map), d, i) {
                        let d0 = choose|d0: int|
                            d0 < e + 1 && spec_blocker_at(*world, *old(map), d0, i);
                        assert(d0 < e || d0 == e as int);
                        assert(d0 < e);
                    }
                }
                assert forall|i: int, d: Entity|
                    0 <= i < old(map).size.spec_area() implies (#[trigger] map.tile_content@[i]@.contains(
                    d,
                ) <==> (d < e + 1 && spec_occupant_at(*world, *old(map), d as int, i))) by {
                    if d == e {
                        assert(!spec_occupant_at(*world, *old(map), d as int, i));
                    }
                }
            }
        }
        e = e + 1;
    }
}

} // verus!
