//! The visibility engine: a line-of-sight field-of-view sweep, recomputed
//! per viewer when its dirty flag is set, with the map's reveal mask growing
//! monotonically.

use vstd::prelude::*;
use crate::components::{Position, Viewshed};
use crate::map::{GameMap, positions_in_bounds};
use crate::world::{World, entity_unchanged_but_viewshed};

verus! {

/// Squared Euclidean distance between two positions.
pub open spec fn spec_dist2(p: Position, q: Position) -> int {
    (q.x - p.x) * (q.x - p.x) + (q.y - p.y) * (q.y - p.y)
}

pub open spec fn abs2(v: int) -> int {
    if v < 0 {
        -v
    } else {
        v
    }
}

pub open spec fn sign(v: int) -> int {
    if v > 0 {
        1
    } else if v < 0 {
        -1
    } else {
        0
    }
}

/// Number of sampling steps along the sight line from `o` to `t`: the
/// Chebyshev distance.
pub open spec fn spec_n_steps(o: Position, t: Position) -> int {
    if abs2(t.x - o.x) >= abs2(t.y - o.y) {
        abs2(t.x - o.x)
    } else {
        abs2(t.y - o.y)
    }
}

/// X coordinate of the `k`-th sample of the sight line from `o` to `t`: one
/// tile per step along the major axis, the minor axis following with rounded
/// interpolation.
pub open spec fn spec_sample_x(o: Position, t: Position, k: int) -> int {
    let adx = abs2(t.x - o.x);
    let ady = abs2(t.y - o.y);
    if adx >= ady {
        o.x + sign(t.x - o.x) * k
    } else {
        o.x + sign(t.x - o.x) * ((2 * k * adx + ady) / (2 * ady))
    }
}

/// Y coordinate of the `k`-th sample of the sight line from `o` to `t`.
pub open spec fn spec_sample_y(o: Position, t: Position, k: int) -> int {
    let adx = abs2(t.x - o.x);
    let ady = abs2(t.y - o.y);
    if adx >= ady {
        o.y + sign(t.y - o.y) * ((2 * k * ady + adx) / (2 * adx))
    } else {
        o.y + sign(t.y - o.y) * k
    }
}

/// The sight line from `o` to `t` is clear: no sample strictly between the
/// endpoints is an opaque (Wall) tile.
pub open spec fn spec_los_clear(map: GameMap, o: Position, t: Position) -> bool {
    forall|k: int|
        0 < k < spec_n_steps(o, t) ==> !map.spec_opaque(
            map.size.spec_xy_idx(#[trigger] spec_sample_x(o, t, k), spec_sample_y(o, t, k)),
        )
}

/// Tile `t` is visible from `o` within `range`: in bounds, within Euclidean
/// range, and with a clear sight line.  The endpoints themselves may be
/// Walls (a seen wall is visible).
pub open spec fn spec_visible(map: GameMap, o: Position, range: int, t: Position) -> bool {
    &&& map.spec_in_bounds(t)
    &&& spec_dist2(o, t) <= range * range
    &&& spec_los_clear(map, o, t)
}

/// Every sample of the sight line stays inside the bounding box of its
/// endpoints.
proof fn lemma_sample_in_box(o: Position, t: Position, k: int)
    requires
        0 <= k <= spec_n_steps(o, t),
    ensures
        seg_min(o.x as int, t.x as int) <= spec_sample_x(o, t, k) <= seg_max(o.x as int, t.x as int),
        seg_min(o.y as int, t.y as int) <= spec_sample_y(o, t, k) <= seg_max(o.y as int, t.y as int),
{
    let adx = abs2(t.x - o.x);
    let ady = abs2(t.y - o.y);
    if adx >= ady {
        if adx > 0 {
            lemma_interp_bounds(k, ady, adx);
        }
    } else {
        lemma_interp_bounds(k, adx, ady);
    }
}

pub open spec fn seg_min(a: int, b: int) -> int {
    if a <= b {
        a
    } else {
        b
    }
}

pub open spec fn seg_max(a: int, b: int) -> int {
    if a <= b {
        b
    } else {
        a
    }
}

/// The rounded interpolation `(2*k*minor + major) / (2*major)` lies between
/// 0 and `minor` for `0 <= k <= major`.
proof fn lemma_interp_bounds(k: int, minor: int, major: int)
    requires
        0 <= k <= major,
        0 <= minor,
        0 < major,
    ensures
        0 <= (2 * k * minor + major) / (2 * major) <= minor,
{
    let num = 2 * k * minor + major;
    assert(0 <= 2 * k * minor) by (nonlinear_arith)
        requires
            0 <= k,
            0 <= minor,
    ;
    assert(2 * k * minor <= 2 * major * minor) by (nonlinear_arith)
        requires
            0 <= k <= major,
            0 <= minor,
    ;
    assert(0 <= num <= 2 * major * minor + major);
    assert(num / (2 * major) >= 0) by (nonlinear_arith)
        requires
            num >= 0,
            major > 0,
    ;
    assert((2 * major * minor + major) / (2 * major) <= minor) by (nonlinear_arith)
        requires
            major > 0,
            minor >= 0,
    ;
    assert(num / (2 * major) <= (2 * major * minor + major) / (2 * major)) by (nonlinear_arith)
        requires
            0 <= num <= 2 * major * minor + major,
            major > 0,
    ;
}

/// The `k`-th sample of the sight line from `o` to `t`, as a position.
fn sample_point(o: Position, t: Position, k: i32) -> (p: Position)
    requires
        -16384 <= o.x <= 16384,
        -16384 <= o.y <= 16384,
        -16384 <= t.x <= 16384,
        -16384 <= t.y <= 16384,
        0 <= k <= spec_n_steps(o, t),
    ensures
        p.x == spec_sample_x(o, t, k as int),
        p.y == spec_sample_y(o, t, k as int),
{
    let dx = t.x - o.x;
    let dy = t.y - o.y;
    let adx = if dx >= 0 {
        dx
    } else {
        -dx
    };
    let ady = if dy >= 0 {
        dy
    } else {
        -dy
    };
    proof {
        assert(0 <= 2 * (k as int) * (ady as int) <= 2 * 32768 * 32768) by (nonlinear_arith)
            requires
                0 <= k as int <= 32768,
                0 <= ady as int <= 32768,
        ;
        assert(0 <= 2 * (k as int) * (adx as int) <= 2 * 32768 * 32768) by (nonlinear_arith)
            requires
                0 <= k as int <= 32768,
                0 <= adx as int <= 32768,
        ;
    }
    if adx >= ady {
        proof {
            if adx > 0 {
                lemma_interp_bounds(k as int, ady as int, adx as int);
            }
        }
        let off: i32 = if adx > 0 {
            ((2 * (k as u64) * (ady as u64) + (adx as u64)) / (2 * (adx as u64))) as i32
        } else {
            0
        };
        let px = if dx > 0 {
            o.x + k
        } else if dx < 0 {
            o.x - k
        } else {
            o.x
        };
        let py = if dy > 0 {
            o.y + off
        } else if dy < 0 {
            o.y - off
        } else {
            o.y
        };
        proof {
            assert(px as int == o.x + sign(t.x - o.x) * (k as int));
            if dy == 0 {
                assert(sign(t.y - o.y) == 0);
                assert(py as int == spec_sample_y(o, t, k as int));
            } else {
                assert(adx > 0);
                assert(off as int == (2 * (k as int) * (ady as int) + (adx as int)) / (2 * (
                adx as int)));
                assert(py as int == o.y + sign(t.y - o.y) * ((2 * (k as int) * (ady as int) + (
                adx as int)) / (2 * (adx as int))));
            }
        }
        Position { x: px, y: py }
    } else {
        proof {
            lemma_interp_bounds(k as int, adx as int, ady as int);
        }
        let off: i32 = ((2 * (k as u64) * (adx as u64) + (ady as u64)) / (2 * (ady as u64))) as i32;
        let px = if dx > 0 {
            o.x + off
        } else if dx < 0 {
            o.x - off
        } else {
            o.x
        };
        let py = if dy > 0 {
            o.y + k
        } else if dy < 0 {
            o.y - k
        } else {
            o.y
        };
        proof {
            assert(py as int == o.y + sign(t.y - o.y) * (k as int));
            assert(off as int == (2 * (k as int) * (adx as int) + (ady as int)) / (2 * (
            ady as int)));
            let q = (2 * (k as int) * (adx as int) + (ady as int)) / (2 * (ady as int));
            if dx > 0 {
                assert(sign(t.x - o.x) == 1);
                assert(1 * q == q) by (nonlinear_arith);
            } else if dx < 0 {
                assert(sign(t.x - o.x) == -1);
                assert((-1) * q == -q) by (nonlinear_arith);
            } else {
                assert(sign(t.x - o.x) == 0);
                assert(0 * q == 0) by (nonlinear_arith);
            }
            assert(px as int == o.x + sign(t.x - o.x) * q);
        }
        Position { x: px, y: py }
    }
}

/// Is the sight line from `o` to `t` free of Walls strictly between the
/// endpoints?
fn line_clear(map: &GameMap, o: Position, t: Position) -> (b: bool)
    requires
        map.spec_wf(),
        map.spec_in_bounds(o),
        map.spec_in_bounds(t),
    ensures
        b == spec_los_clear(*map, o, t),
{
    let dx = t.x - o.x;
    let dy = t.y - o.y;
    let adx = if dx >= 0 {
        dx
    } else {
        -dx
    };
    let ady = if dy >= 0 {
        dy
    } else {
        -dy
    };
    let n = if adx >= ady {
        adx
    } else {
        ady
    };
    let mut k: i32 = 1;
    while k < n
        invariant
            map.spec_wf(),
            map.spec_in_bounds(o),
            map.spec_in_bounds(t),
            n == spec_n_steps(o, t),
            1 <= k,
            k <= n || n < 1,
            forall|kk: int|
                0 < kk < k ==> !map.spec_opaque(
                    map.size.spec_xy_idx(
                        #[trigger] spec_sample_x(o, t, kk),
                        spec_sample_y(o, t, kk),
                    ),
                ),
        decreases n - k,
    {
        let p = sample_point(o, t, k);
        proof {
            lemma_sample_in_box(o, t, k as int);
        }
        let idx = map.position_idx(p);
        if map.is_opaque(idx) {
            proof {
                assert(map.spec_opaque(
                    map.size.spec_xy_idx(spec_sample_x(o, t, k as int), spec_sample_y(o, t, k as int)),
                ));
            }
            return false;
        }
        k = k + 1;
    }
    true
}

/// Magnitude bound from a squared bound.
proof fn lemma_sq_le(a: int, r: int)
    requires
        r >= 0,
        a * a <= r * r,
    ensures
        -r <= a <= r,
{
    if a > r {
        assert(a * a > r * r) by (nonlinear_arith)
            requires
                a > r >= 0,
        ;
    }
    if a < -r {
        assert(a * a > r * r) by (nonlinear_arith)
            requires
                a < -r <= 0,
        ;
    }
}

/// The set of tiles visible from `origin` out to `range`: exactly those in
/// bounds, within Euclidean range, and with a clear sight line.
#[verifier::rlimit(100)]
pub fn field_of_view(map: &GameMap, origin: Position, range: i32) -> (r: Vec<Position>)
    requires
        map.spec_wf(),
        map.spec_in_bounds(origin),
        0 <= range <= 1000,
    ensures
        forall|m: int| 0 <= m < r@.len() ==> spec_visible(*map, origin, range as int, #[trigger] r@[m]),
        forall|q: Position| spec_visible(*map, origin, range as int, q) ==> r@.contains(q),
{
    let mut r: Vec<Position> = Vec::new();
    let side = 2 * range + 1;
    let mut dyi: i32 = 0;
    proof {
        assert forall|q: Position|
            spec_visible(*map, origin, range as int, q) && q.y - origin.y + range
                < 0 implies r@.contains(q) by {
            assert((q.y - origin.y) * (q.y - origin.y) <= range * range) by (nonlinear_arith)
                requires
                    (q.x - origin.x) * (q.x - origin.x) + (q.y - origin.y) * (q.y - origin.y)
                        <= range * range,
            ;
            lemma_sq_le(q.y - origin.y, range as int);
        }
    }
    while dyi < side
        invariant
            map.spec_wf(),
            map.spec_in_bounds(origin),
            0 <= range <= 1000,
            side == 2 * range + 1,
            0 <= dyi <= side,
            forall|m: int|
                0 <= m < r@.len() ==> spec_visible(*map, origin, range as int, #[trigger] r@[m]),
            forall|q: Position|
                spec_visible(*map, origin, range as int, q) && q.y - origin.y + range < dyi
                    ==> r@.contains(q),
        decreases side - dyi,
    {
        let mut dxi: i32 = 0;
        proof {
            assert forall|q: Position|
                spec_visible(*map, origin, range as int, q) && q.x - origin.x + range
                    < 0 implies r@.contains(q) by {
                assert((q.x - origin.x) * (q.x - origin.x) <= range * range) by (nonlinear_arith)
                    requires
                        (q.x - origin.x) * (q.x - origin.x) + (q.y - origin.y) * (q.y - origin.y)
                            <= range * range,
                ;
                lemma_sq_le(q.x - origin.x, range as int);
            }
        }
        while dxi < side
            invariant
                map.spec_wf(),
                map.spec_in_bounds(origin),
                0 <= range <= 1000,
                side == 2 * range + 1,
                0 <= dyi < side,
                0 <= dxi <= side,
                forall|m: int|
                    0 <= m < r@.len() ==> spec_visible(*map, origin, range as int, #[trigger] r@[m]),
                forall|q: Position|
                    spec_visible(*map, origin, range as int, q) && q.y - origin.y + range < dyi
                        ==> r@.contains(q),
                forall|q: Position|
                    spec_visible(*map, origin, range as int, q) && q.y - origin.y + range == dyi
                        && q.x - origin.x + range < dxi ==> r@.contains(q),
            decreases side - dxi,
        {
            let tx = origin.x - range + dxi;
            let ty = origin.y - range + dyi;
            let t = Position { x: tx, y: ty };
            let ghost r_pre = r@;
            let mut pushed = false;
            if map.size.contains(&t) {
                let ddx = (tx - origin.x) as i64;
                let ddy = (ty - origin.y) as i64;
                proof {
                    assert(0 <= ddx * ddx <= 1000 * 1000) by (nonlinear_arith)
                        requires
                            -1000 <= ddx <= 1000,
                    ;
                    assert(0 <= ddy * ddy <= 1000 * 1000) by (nonlinear_arith)
                        requires
                            -1000 <= ddy <= 1000,
                    ;
                    assert(0 <= (range as i64) * (range as i64) <= 1000 * 1000) by (nonlinear_arith)
                        requires
                            0 <= range <= 1000,
                    ;
                }
                if ddx * ddx + ddy * ddy <= (range as i64) * (range as i64) {
                    if line_clear(map, origin, t) {
                        r.push(t);
                        pushed = true;
                    }
                }
            }
            proof {
                assert forall|q: Position|
                    spec_visible(*map, origin, range as int, q) && ((q.y - origin.y + range < dyi)
                        || (q.y - origin.y + range == dyi && q.x - origin.x + range < dxi
                        + 1)) implies r@.contains(q) by {
                    if q.y - origin.y + range == dyi && q.x - origin.x + range == dxi {
                        assert(q == t);
                        assert(map.spec_in_bounds(t));
                        assert(spec_dist2(origin, t) <= range * range);
                        assert(spec_los_clear(*map, origin, t));
                        assert(pushed);
                        assert(r@ == r_pre.push(t));
                        assert(r@[r_pre.len() as int] == t);
                        assert(r@.contains(q));
                    } else {
                        assert(r_pre.contains(q));
                        let m0 = choose|m0: int| 0 <= m0 < r_pre.len() && r_pre[m0] == q;
                        assert(r@[m0] == q);
                        assert(r@.contains(q));
                    }
                }
            }
            dxi = dxi + 1;
        }
        proof {
            assert forall|q: Position|
                spec_visible(*map, origin, range as int, q) && q.y - origin.y + range < dyi
                    + 1 implies r@.contains(q) by {
                assert((q.x - origin.x) * (q.x - origin.x) <= range * range) by (nonlinear_arith)
                    requires
                        (q.x - origin.x) * (q.x - origin.x) + (q.y - origin.y) * (q.y - origin.y)
                            <= range * range,
                ;
                lemma_sq_le(q.x - origin.x, range as int);
            }
        }
        dyi = dyi + 1;
    }
    proof {
        assert forall|q: Position|
            spec_visible(*map, origin, range as int, q) implies r@.contains(q) by {
            assert((q.y - origin.y) * (q.y - origin.y) <= range * range) by (nonlinear_arith)
                requires
                    (q.x - origin.x) * (q.x - origin.x) + (q.y - origin.y) * (q.y - origin.y)
                        <= range * range,
            ;
            lemma_sq_le(q.y - origin.y, range as int);
        }
    }
    r
}


/// Visibility depends only on the grid's size and terrain: two maps that
/// agree on those agree on what is visible.
pub proof fn lemma_visible_congruent(m1: GameMap, m2: GameMap, o: Position, range: int, q: Position)
    requires
        m1.size == m2.size,
        m1.tiles@ == m2.tiles@,
    ensures
        spec_visible(m1, o, range, q) == spec_visible(m2, o, range, q),
{
    assert(spec_los_clear(m1, o, q) == spec_los_clear(m2, o, q)) by {
        if spec_los_clear(m1, o, q) {
            assert forall|k: int|
                0 < k < spec_n_steps(o, q) implies !m2.spec_opaque(
                m2.size.spec_xy_idx(#[trigger] spec_sample_x(o, q, k), spec_sample_y(o, q, k)),
            ) by {
                assert(!m1.spec_opaque(
                    m1.size.spec_xy_idx(spec_sample_x(o, q, k), spec_sample_y(o, q, k)),
                ));
            }
        }
        if spec_los_clear(m2, o, q) {
            assert forall|k: int|
                0 < k < spec_n_steps(o, q) implies !m1.spec_opaque(
                m1.size.spec_xy_idx(#[trigger] spec_sample_x(o, q, k), spec_sample_y(o, q, k)),
            ) by {
                assert(!m2.spec_opaque(
                    m2.size.spec_xy_idx(spec_sample_x(o, q, k), spec_sample_y(o, q, k)),
                ));
            }
        }
    }
}

/// Did entity `e` hold a dirty viewshed and a position while alive, so that
/// the visibility pass recomputes it?
pub open spec fn spec_needs_recompute(w: World, e: int) -> bool {
    &&& w.alive@[e]
    &&& w.viewsheds@[e] matches Some(v) && v.dirty
    &&& w.positions@[e] is Some
}

/// One visibility pass.
///
/// For every live entity with a position and a dirty viewshed, the set of
/// currently visible tiles is recomputed by the field-of-view sweep and the
/// dirty flag cleared; clean viewsheds are reused untouched.  For a player
/// viewer the map's transient visible mask is overwritten and the newly
/// visible tiles are OR-ed into the permanent reveal mask, which therefore
/// only ever grows; visible tiles are always a subset of revealed ones
/// afterwards.  If no viewshed is dirty the pass changes nothing at all.
#[verifier::rlimit(100)]
pub fn run_visibility(world: &mut World, map: &mut GameMap)
    requires
        old(world).spec_wf(),
        old(map).spec_wf(),
        positions_in_bounds(*old(world), *old(map)),
    ensures
        final(world).spec_wf(),
        final(world).spec_len() == old(world).spec_len(),
        final(map).spec_wf(),
        final(map).size == old(map).size,
        final(map).tiles@ == old(map).tiles@,
        final(map).rooms@ == old(map).rooms@,
        final(map).blocked@ == old(map).blocked@,
        final(map).tile_content@ == old(map).tile_content@,
        final(world).pending_deletes@ == old(world).pending_deletes@,
        positions_in_bounds(*final(world), *final(map)),
        forall|e: int|
            0 <= e < old(world).spec_len() ==> entity_unchanged_but_viewshed(
                *old(world),
                *final(world),
                e,
            ),
        forall|e: int|
            0 <= e < old(world).spec_len() && !spec_needs_recompute(*old(world), e)
                ==> final(world).viewsheds@[e] == old(world).viewsheds@[e],
        forall|e: int|
            0 <= e < old(world).spec_len() && old(world).alive@[e] && old(world).positions@[e]
                is Some ==> (#[trigger] old(world).viewsheds@[e] matches Some(v) ==> (final(world).viewsheds@[e] matches Some(nv)
                && !nv.dirty && nv.range == v.range)),
        forall|e: int|
            0 <= e < old(world).spec_len() && spec_needs_recompute(*old(world), e) ==> (
            #[trigger] old(world).viewsheds@[e] matches Some(v) ==> (old(world).positions@[e] matches Some(p) ==> (final(world).viewsheds@[e] matches Some(nv)
                && nv.range == v.range && !nv.dirty && (forall|q: Position|
                nv.visible_tiles@.contains(q) <==> spec_visible(
                    *old(map),
                    p,
                    v.range as int,
                    q,
                ))))),
        forall|i: int|
            0 <= i < old(map).size.spec_area() && old(map).revealed_tiles@[i] ==> final(map).revealed_tiles@[i],
        (forall|i: int|
            0 <= i < old(map).size.spec_area() && old(map).visible_tiles@[i] ==> old(map).revealed_tiles@[i]) ==> (forall|i: int|
            0 <= i < old(map).size.spec_area() && final(map).visible_tiles@[i] ==> final(map).revealed_tiles@[i]),
        (forall|e: int|
            0 <= e < old(world).spec_len() ==> !spec_needs_recompute(*old(world), e)) ==> (*final(world) == *old(world) && *final(map) == *old(map)),
{
    let n = world.alive.len();
    let mut e: usize = 0;
    while e < n
        invariant
            world.spec_wf(),
            map.spec_wf(),
            n == old(world).spec_len(),
            world.spec_len() == n,
            e <= n,
            map.size == old(map).size,
            map.tiles@ == old(map).tiles@,
            map.rooms@ == old(map).rooms@,
            map.blocked@ == old(map).blocked@,
            map.tile_content@ == old(map).tile_content@,
            world.pending_deletes@ == old(world).pending_deletes@,
            old(world).spec_wf(),
            old(map).spec_wf(),
            positions_in_bounds(*old(world), *old(map)),
            forall|d: int|
                0 <= d < n ==> entity_unchanged_but_viewshed(*old(world), *world, d),
            forall|d: int|
                e <= d < n ==> world.viewsheds@[d] == old(world).viewsheds@[d],
            forall|d: int|
                0 <= d < e && !spec_needs_recompute(*old(world), d) ==> world.viewsheds@[d] == old(world).viewsheds@[d],
            forall|d: int|
                0 <= d < e && old(world).alive@[d] && old(world).positions@[d] is Some ==> (
                #[trigger] old(world).viewsheds@[d] matches Some(v) ==> (
                world.viewsheds@[d] matches Some(nv) && !nv.dirty && nv.range == v.range)),
            forall|d: int|
                0 <= d < e && spec_needs_recompute(*old(world), d) ==> (#[trigger] old(world).viewsheds@[d] matches Some(v) ==> (old(world).positions@[d] matches Some(p) ==> (
                world.viewsheds@[d] matches Some(nv) && nv.range == v.range && !nv.dirty && (forall|
                    q: Position,
                |
                    nv.visible_tiles@.contains(q) <==> spec_visible(
                        *old(map),
                        p,
                        v.range as int,
                        q,
                    ))))),
            forall|i: int|
                0 <= i < old(map).size.spec_area() && old(map).revealed_tiles@[i]
                    ==> map.revealed_tiles@[i],
            (map.visible_tiles@ == old(map).visible_tiles@ && map.revealed_tiles@ == old(map).revealed_tiles@) || (forall|i: int|
                0 <= i < old(map).size.spec_area() && map.visible_tiles@[i]
                    ==> map.revealed_tiles@[i]),
            (forall|d: int|
                0 <= d < n ==> !spec_needs_recompute(*old(world), d)) ==> (*world == *old(world)
                && *map == *old(map)),
        decreases n - e,
    {
        let mut do_it = false;
        let mut vrange: i32 = 0;
        let mut pos = Position { x: 0, y: 0 };
        if world.alive[e] {
            if let Some(v) = &world.viewsheds[e] {
                if let Some(p) = &world.positions[e] {
                    if v.dirty {
                        do_it = true;
                        vrange = v.range;
                        pos = *p;
                    }
                }
            }
        }
        if do_it {
            proof {
                assert(entity_unchanged_but_viewshed(*old(world), *world, e as int));
                assert(world.viewsheds@[e as int] == old(world).viewsheds@[e as int]);
                assert(spec_needs_recompute(*old(world), e as int));
                assert(old(world).positions@[e as int] matches Some(p0) && old(map).spec_in_bounds(
                    p0,
                ));
                assert(map.spec_in_bounds(pos));
            }
            let tiles = field_of_view(map, pos, vrange);
            let is_player = match &world.players[e] {
                Some(_) => true,
                None => false,
            };
            if is_player {
                let area = map.visible_tiles.len();
                let mut i: usize = 0;
                while i < area
                    invariant
                        map.spec_wf(),
                        area == map.size.spec_area(),
                        i <= area,
                        map.size == old(map).size,
                        map.tiles@ == old(map).tiles@,
                        map.rooms@ == old(map).rooms@,
                        map.blocked@ == old(map).blocked@,
                        map.tile_content@ == old(map).tile_content@,
                        forall|j: int| 0 <= j < i ==> !map.visible_tiles@[j],
                        forall|j: int|
                            0 <= j < old(map).size.spec_area() && old(map).revealed_tiles@[j]
                                ==> map.revealed_tiles@[j],
                    decreases area - i,
                {
                    map.visible_tiles[i] = false;
                    i = i + 1;
                }
                let n_tiles = tiles.len();
                let mut m: usize = 0;
                while m < n_tiles
                    invariant
                        map.spec_wf(),
                        n_tiles == tiles@.len(),
                        m <= n_tiles,
                        map.size == old(map).size,
                        map.tiles@ == old(map).tiles@,
                        map.rooms@ == old(map).rooms@,
                        map.blocked@ == old(map).blocked@,
                        map.tile_content@ == old(map).tile_content@,
                        forall|mm: int|
                            0 <= mm < n_tiles ==> spec_visible(
                                *map,
                                pos,
                                vrange as int,
                                #[trigger] tiles@[mm],
                            ),
                        forall|j: int|
                            0 <= j < map.size.spec_area() && map.visible_tiles@[j]
                                ==> map.revealed_tiles@[j],
                        forall|j: int|
                            0 <= j < old(map).size.spec_area() && old(map).revealed_tiles@[j]
                                ==> map.revealed_tiles@[j],
                    decreases n_tiles - m,
                {
                    let idx = map.position_idx(tiles[m]);
                    map.visible_tiles[idx] = true;
                    map.revealed_tiles[idx] = true;
                    m = m + 1;
                }
            }
            let ghost w_pre = *world;
            world.viewsheds[e] = Some(Viewshed { visible_tiles: tiles, range: vrange, dirty: false });
            proof {
                assert forall|d: int|
                    0 <= d < n implies entity_unchanged_but_viewshed(*old(world), *world, d) by {
                    assert(entity_unchanged_but_viewshed(*old(world), w_pre, d));
                }
                let p0 = old(world).positions@[e as int]->Some_0;
                assert forall|q: Position|
                    (world.viewsheds@[e as int]->Some_0).visible_tiles@.contains(q)
                        <==> spec_visible(*old(map), p0, vrange as int, q) by {
                    lemma_visible_congruent(*map, *old(map), p0, vrange as int, q);
                }
            }
        }
        proof {
            assert(entity_unchanged_but_viewshed(*old(world), *world, e as int));
            assert forall|d: int|
                0 <= d < e + 1 && old(world).alive@[d] && old(world).positions@[d]
                    is Some implies (#[trigger] old(world).viewsheds@[d] matches Some(v) ==> (
            world.viewsheds@[d] matches Some(nv) && !nv.dirty && nv.range == v.range)) by {
                if d == e as int {
                    assert(world.alive@[d] == old(world).alive@[d]);
                    assert(world.positions@[d] == old(world).positions@[d]);
                }
            }
            assert forall|d: int|
                0 <= d < e + 1 && spec_needs_recompute(*old(world), d) implies (#[trigger] old(world).viewsheds@[d] matches Some(v) ==> (old(world).positions@[d] matches Some(p) ==> (
            world.viewsheds@[d] matches Some(nv) && nv.range == v.range && !nv.dirty && (forall|
                q: Position,
            |
                nv.visible_tiles@.contains(q) <==> spec_visible(
                    *old(map),
                    p,
                    v.range as int,
                    q,
                ))))) by {
                if d == e as int {
                    assert(world.alive@[d] == old(world).alive@[d]);
                    assert(world.positions@[d] == old(world).positions@[d]);
                }
            }
        }
        e = e + 1;
    }
    proof {
        assert forall|d: int|
            0 <= d < world.spec_len() implies (#[trigger] world.positions@[d] matches Some(p)
            ==> map.spec_in_bounds(p)) by {
            assert(entity_unchanged_but_viewshed(*old(world), *world, d));
        }
    }
}

} // verus!
