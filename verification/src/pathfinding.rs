//! Weighted shortest-path search over the tile grid, against the map's
//! adjacency primitives: cardinal steps cost 100, diagonal steps 145 (both in
//! hundredths of a tile).
//!
//! The search promises soundness and completeness: a returned path really is
//! a step-by-step walk through unblocked tiles from start to goal, and a
//! failure means no such walk exists at all.

use vstd::prelude::*;
use crate::map::GameMap;
use crate::rect::{lemma_idx_encode_unique, lemma_idx_position_in_rect, lemma_idx_position_roundtrip};

verus! {

/// Is `i` a tile index of the grid?
pub open spec fn idx_in_bounds(map: GameMap, i: int) -> bool {
    0 <= i < map.size.spec_area()
}

/// May a path step onto tile `j`: in bounds and not blocked?
pub open spec fn passable(map: GameMap, j: int) -> bool {
    idx_in_bounds(map, j) && !map.blocked@[j]
}

/// Are tiles `i` and `j` distinct neighbors (8-connected)?
pub open spec fn adjacent(map: GameMap, i: int, j: int) -> bool {
    &&& idx_in_bounds(map, i)
    &&& idx_in_bounds(map, j)
    &&& -1 <= map.size.spec_idx_x(j) - map.size.spec_idx_x(i) <= 1
    &&& -1 <= map.size.spec_idx_y(j) - map.size.spec_idx_y(i) <= 1
    &&& !(map.size.spec_idx_x(j) == map.size.spec_idx_x(i) && map.size.spec_idx_y(j)
        == map.size.spec_idx_y(i))
}

/// May a walk standing on `i` move to `j`?
pub open spec fn step_ok(map: GameMap, i: int, j: int) -> bool {
    adjacent(map, i, j) && passable(map, j)
}

/// Cost of the step from `i` to `j`: 145 hundredths diagonally, 100
/// cardinally.
pub open spec fn spec_exit_cost(map: GameMap, i: int, j: int) -> u32 {
    if map.size.spec_idx_x(j) != map.size.spec_idx_x(i) && map.size.spec_idx_y(j)
        != map.size.spec_idx_y(i) {
        145u32
    } else {
        100u32
    }
}

/// `p` is a walk from `start` to `goal`: it begins at `start`, ends at
/// `goal`, and every step moves to an adjacent, unblocked tile.  The starting
/// tile itself need not be unblocked (an actor searches from its own,
/// occupied tile).
pub open spec fn is_path(map: GameMap, p: Seq<Entity>, start: usize, goal: usize) -> bool {
    &&& p.len() >= 1
    &&& p[0] == start
    &&& p[p.len() - 1] == goal
    &&& idx_in_bounds(map, start as int)
    &&& forall|k: int| 0 <= k < p.len() - 1 ==> step_ok(map, #[trigger] p[k] as int, p[k + 1] as int)
}

/// Some walk from `start` to `goal` exists.
pub open spec fn has_path(map: GameMap, start: usize, goal: usize) -> bool {
    exists|p: Seq<Entity>| is_path(map, p, start, goal)
}

use crate::world::Entity;

/// Offsets of the eight neighbors: four cardinal directions first, then the
/// four diagonals.
pub open spec fn dir_dx(t: int) -> int {
    if t == 0 {
        -1
    } else if t == 1 {
        1
    } else if t == 2 {
        0
    } else if t == 3 {
        0
    } else if t == 4 {
        -1
    } else if t == 5 {
        1
    } else if t == 6 {
        -1
    } else {
        1
    }
}

pub open spec fn dir_dy(t: int) -> int {
    if t == 0 {
        0
    } else if t == 1 {
        0
    } else if t == 2 {
        -1
    } else if t == 3 {
        1
    } else if t == 4 {
        -1
    } else if t == 5 {
        -1
    } else if t == 6 {
        1
    } else {
        1
    }
}

pub open spec fn dir_cost(t: int) -> u32 {
    if t < 4 {
        100u32
    } else {
        145u32
    }
}

/// Is the neighbor in direction `t` of `(x, y)` a valid exit?
pub open spec fn spec_dir_valid(map: GameMap, x: int, y: int, t: int) -> bool {
    map.spec_exit_valid(x + dir_dx(t), y + dir_dy(t))
}

/// How many entries of `s` are true.
pub closed spec fn count_trues(s: Seq<bool>) -> int
    decreases s.len(),
{
    if s.len() == 0 {
        0
    } else {
        count_trues(s.drop_last()) + if s.last() {
            1int
        } else {
            0int
        }
    }
}

/// The count of true entries is between 0 and the length.
pub proof fn lemma_count_trues_bounds(s: Seq<bool>)
    ensures
        0 <= count_trues(s) <= s.len(),
    decreases s.len(),
{
    if s.len() > 0 {
        lemma_count_trues_bounds(s.drop_last());
    }
}

/// Setting a false entry to true increases the count by exactly one.
pub proof fn lemma_count_trues_update(s: Seq<bool>, i: int)
    requires
        0 <= i < s.len(),
        !s[i],
    ensures
        count_trues(s.update(i, true)) == count_trues(s) + 1,
    decreases s.len(),
{
    let su = s.update(i, true);
    if i == s.len() - 1 {
        assert(su.drop_last() =~= s.drop_last());
    } else {
        assert(su.drop_last() =~= s.drop_last().update(i, true));
        lemma_count_trues_update(s.drop_last(), i);
    }
}

/// A full count means every entry is true.
pub proof fn lemma_count_trues_all(s: Seq<bool>, i: int)
    requires
        count_trues(s) == s.len(),
        0 <= i < s.len(),
    ensures
        s[i],
    decreases s.len(),
{
    lemma_count_trues_bounds(s.drop_last());
    if i < s.len() - 1 {
        lemma_count_trues_all(s.drop_last(), i);
    }
}

/// A walk that starts inside a set of tiles closed under valid steps never
/// leaves it.
proof fn lemma_path_stays(map: GameMap, r: Seq<bool>, p: Seq<Entity>, start: usize, goal: usize, k: int)
    requires
        is_path(map, p, start, goal),
        r.len() == map.size.spec_area(),
        r[start as int],
        forall|i: int, j: int|
            0 <= i < r.len() && 0 <= j < r.len() && r[i] && step_ok(map, i, j) ==> r[j],
        0 <= k < p.len(),
    ensures
        idx_in_bounds(map, p[k] as int),
        r[p[k] as int],
    decreases k,
{
    if k == 0 {
    } else {
        lemma_path_stays(map, r, p, start, goal, k - 1);
        assert(step_ok(map, p[k - 1] as int, p[k] as int));
    }
}

/// If the set of reached tiles is closed under valid steps, contains the
/// start and misses the goal, then no walk from start to goal exists.
proof fn lemma_closed_no_path(map: GameMap, r: Seq<bool>, start: usize, goal: usize)
    requires
        r.len() == map.size.spec_area(),
        idx_in_bounds(map, start as int),
        idx_in_bounds(map, goal as int),
        r[start as int],
        !r[goal as int],
        forall|i: int, j: int|
            0 <= i < r.len() && 0 <= j < r.len() && r[i] && step_ok(map, i, j) ==> r[j],
    ensures
        !has_path(map, start, goal),
{
    if has_path(map, start, goal) {
        let p = choose|p: Seq<Entity>| is_path(map, p, start, goal);
        lemma_path_stays(map, r, p, start, goal, p.len() - 1);
    }
}

/// A vector of `n` copies of a value.
fn fill_copy<T: Copy>(n: usize, val: T) -> (v: Vec<T>)
    ensures
        v@.len() == n,
        forall|i: int| 0 <= i < n ==> v@[i] == val,
{
    let mut v: Vec<T> = Vec::new();
    let mut i: usize = 0;
    while i < n
        invariant
            i <= n,
            v@.len() == i,
            forall|k: int| 0 <= k < i ==> v@[k] == val,
        decreases n - i,
    {
        v.push(val);
        i = i + 1;
    }
    v
}

impl GameMap {
    /// The valid exits from tile `idx`: up to 8 neighbors, each in bounds and
    /// unblocked, with its step cost.  The list is sound (every entry is a
    /// valid step at the stated cost) and complete (every valid step appears).
    #[verifier::rlimit(60)]
    pub fn get_available_exits(&self, idx: usize) -> (r: Vec<(usize, u32)>)
        requires
            self.spec_wf(),
            idx < self.size.spec_area(),
        ensures
            r@.len() <= 8,
            forall|m: int|
                0 <= m < r@.len() ==> step_ok(*self, idx as int, #[trigger] r@[m].0 as int)
                    && r@[m].1 == spec_exit_cost(*self, idx as int, r@[m].0 as int),
            forall|m1: int, m2: int|
                0 <= m1 < m2 < r@.len() ==> (#[trigger] r@[m1].0) != (#[trigger] r@[m2].0),
            forall|j: usize|
                step_ok(*self, idx as int, j as int) ==> exists|m: int|
                    0 <= m < r@.len() && #[trigger] r@[m].0 == j,
    {
        let position = self.size.idx_position(idx);
        let x = position.x;
        let y = position.y;
        proof {
            lemma_idx_position_in_rect(self.size, idx as int);
        }
        let mut r: Vec<(usize, u32)> = Vec::new();
        let mut t: usize = 0;
        while t < 8
            invariant
                self.spec_wf(),
                idx < self.size.spec_area(),
                t <= 8,
                x == self.size.spec_idx_x(idx as int),
                y == self.size.spec_idx_y(idx as int),
                0 <= x < self.size.spec_width(),
                0 <= y < self.size.spec_height(),
                r@.len() <= t,
                forall|m: int|
                    0 <= m < r@.len() ==> step_ok(*self, idx as int, #[trigger] r@[m].0 as int)
                        && r@[m].1 == spec_exit_cost(*self, idx as int, r@[m].0 as int),
                forall|m: int|
                    0 <= m < r@.len() ==> exists|tt: int|
                        0 <= tt < t && self.size.spec_idx_x(#[trigger] r@[m].0 as int) == x
                            + dir_dx(tt) && self.size.spec_idx_y(r@[m].0 as int) == y + dir_dy(tt),
                forall|m1: int, m2: int|
                    0 <= m1 < m2 < r@.len() ==> (#[trigger] r@[m1].0) != (#[trigger] r@[m2].0),
                forall|tt: int|
                    0 <= tt < t && #[trigger] spec_dir_valid(*self, x as int, y as int, tt)
                        ==> exists|m: int|
                        0 <= m < r@.len() && #[trigger] r@[m] == ((
                        self.size.spec_xy_idx(x + dir_dx(tt), y + dir_dy(tt)) as usize,
                        dir_cost(tt),
                    )),
            decreases 8 - t,
        {
            let ghost r_before = r@;
            let (dx, dy, cost): (i32, i32, u32) = if t == 0 {
                (-1, 0, 100)
            } else if t == 1 {
                (1, 0, 100)
            } else if t == 2 {
                (0, -1, 100)
            } else if t == 3 {
                (0, 1, 100)
            } else if t == 4 {
                (-1, -1, 145)
            } else if t == 5 {
                (1, -1, 145)
            } else if t == 6 {
                (-1, 1, 145)
            } else {
                (1, 1, 145)
            };
            proof {
                assert(dx == dir_dx(t as int) && dy == dir_dy(t as int) && cost == dir_cost(
                    t as int,
                ));
            }
            let nx = x + dx;
            let ny = y + dy;
            if self.is_exit_valid(nx, ny) {
                let nidx = self.xy_idx(nx, ny);
                proof {
                    lemma_idx_position_roundtrip(self.size, nx as int, ny as int);
                }
                r.push((nidx, cost));
                proof {
                    assert(r@[r_before.len() as int] == ((nidx, cost)));
                    assert(step_ok(*self, idx as int, nidx as int));
                    assert(spec_exit_cost(*self, idx as int, nidx as int) == cost);
                    assert(self.size.spec_idx_x(nidx as int) == x + dir_dx(t as int)
                        && self.size.spec_idx_y(nidx as int) == y + dir_dy(t as int));
                    assert forall|m: int|
                        0 <= m < r_before.len() implies r_before[m].0 != nidx by {
                        let tt = choose|tt: int|
                            0 <= tt < t && self.size.spec_idx_x(#[trigger] r_before[m].0 as int)
                                == x + dir_dx(tt) && self.size.spec_idx_y(r_before[m].0 as int) == y
                                + dir_dy(tt);
                        assert(dir_dx(tt) != dir_dx(t as int) || dir_dy(tt) != dir_dy(t as int));
                    }
                    assert forall|m: int|
                        0 <= m < r@.len() implies exists|tt: int|
                            0 <= tt < t + 1 && self.size.spec_idx_x(#[trigger] r@[m].0 as int) == x
                                + dir_dx(tt) && self.size.spec_idx_y(r@[m].0 as int) == y + dir_dy(
                                tt,
                            ) by {
                        if m < r_before.len() {
                            let tt = choose|tt: int|
                                0 <= tt < t && self.size.spec_idx_x(
                                    #[trigger] r_before[m].0 as int,
                                ) == x + dir_dx(tt) && self.size.spec_idx_y(r_before[m].0 as int)
                                    == y + dir_dy(tt);
                            assert(0 <= tt < t + 1 && self.size.spec_idx_x(r@[m].0 as int) == x
                                + dir_dx(tt) && self.size.spec_idx_y(r@[m].0 as int) == y + dir_dy(
                                tt,
                            ));
                        } else {
                            assert(0 <= t < t + 1 && self.size.spec_idx_x(r@[m].0 as int) == x
                                + dir_dx(t as int) && self.size.spec_idx_y(r@[m].0 as int) == y
                                + dir_dy(t as int));
                        }
                    }
                }
            }
            proof {
                assert forall|tt: int|
                    0 <= tt < t + 1 && #[trigger] spec_dir_valid(*self, x as int, y as int, tt)
                        implies exists|m: int|
                        0 <= m < r@.len() && #[trigger] r@[m] == ((
                        self.size.spec_xy_idx(x + dir_dx(tt), y + dir_dy(tt)) as usize,
                        dir_cost(tt),
                    )) by {
                    if tt < t {
                        let m0 = choose|m: int|
                            0 <= m < r_before.len() && #[trigger] r_before[m] == ((
                            self.size.spec_xy_idx(x + dir_dx(tt), y + dir_dy(tt)) as usize,
                            dir_cost(tt),
                        ));
                        assert(r@[m0] == r_before[m0]);
                    } else {
                        assert(r@[r_before.len() as int] == ((
                            self.size.spec_xy_idx(x + dir_dx(tt), y + dir_dy(tt)) as usize,
                            dir_cost(tt),
                        )));
                    }
                }
            }
            t = t + 1;
        }
        proof {
            assert forall|j: usize| step_ok(*self, idx as int, j as int) implies exists|m: int|
                0 <= m < r@.len() && #[trigger] r@[m].0 == j by {
                lemma_idx_position_in_rect(self.size, j as int);
                let xj = self.size.spec_idx_x(j as int);
                let yj = self.size.spec_idx_y(j as int);
                lemma_idx_encode_unique(self.size, j as int, xj, yj);
                let dxj = xj - x;
                let dyj = yj - y;
                let tt: int = if dxj == -1 && dyj == 0 {
                    0
                } else if dxj == 1 && dyj == 0 {
                    1
                } else if dxj == 0 && dyj == -1 {
                    2
                } else if dxj == 0 && dyj == 1 {
                    3
                } else if dxj == -1 && dyj == -1 {
                    4
                } else if dxj == 1 && dyj == -1 {
                    5
                } else if dxj == -1 && dyj == 1 {
                    6
                } else {
                    7
                };
                assert(xj == x + dir_dx(tt) && yj == y + dir_dy(tt));
                assert(spec_dir_valid(*self, x as int, y as int, tt));
                let m = choose|m: int|
                    0 <= m < r@.len() && #[trigger] r@[m] == ((
                    self.size.spec_xy_idx(x + dir_dx(tt), y + dir_dy(tt)) as usize,
                    dir_cost(tt),
                ));
                assert(r@[m].0 == j);
            }
        }
        r
    }

    /// Squared Euclidean distance between the positions of two tile indices,
    /// the heuristic of the shortest-path search.
    pub fn get_pathing_distance(&self, idx1: usize, idx2: usize) -> (d: u64)
        requires
            self.spec_wf(),
            idx1 < self.size.spec_area(),
            idx2 < self.size.spec_area(),
        ensures
            d == (self.size.spec_idx_x(idx2 as int) - self.size.spec_idx_x(idx1 as int)) * (
            self.size.spec_idx_x(idx2 as int) - self.size.spec_idx_x(idx1 as int)) + (
            self.size.spec_idx_y(idx2 as int) - self.size.spec_idx_y(idx1 as int)) * (
            self.size.spec_idx_y(idx2 as int) - self.size.spec_idx_y(idx1 as int)),
    {
        let p1 = self.size.idx_position(idx1);
        let p2 = self.size.idx_position(idx2);
        proof {
            lemma_idx_position_in_rect(self.size, idx1 as int);
            lemma_idx_position_in_rect(self.size, idx2 as int);
        }
        let dx = (p2.x - p1.x) as i64;
        let dy = (p2.y - p1.y) as i64;
        proof {
            assert(0 <= dx * dx <= 16384 * 16384) by (nonlinear_arith)
                requires
                    -16384 <= dx <= 16384,
            ;
            assert(0 <= dy * dy <= 16384 * 16384) by (nonlinear_arith)
                requires
                    -16384 <= dy <= 16384,
            ;
        }
        (dx * dx + dy * dy) as u64
    }
}


/// Count of trues is zero on an all-false sequence.
pub proof fn lemma_count_trues_none(s: Seq<bool>)
    requires
        forall|i: int| 0 <= i < s.len() ==> !s[i],
    ensures
        count_trues(s) == 0,
    decreases s.len(),
{
    if s.len() > 0 {
        lemma_count_trues_none(s.drop_last());
    }
}

/// Total weight of a walk: the sum of its step costs.
pub open spec fn path_cost(map: GameMap, p: Seq<Entity>) -> int
    decreases p.len(),
{
    if p.len() <= 1 {
        0
    } else {
        spec_exit_cost(map, p[0] as int, p[1] as int) + path_cost(map, p.drop_first())
    }
}

/// Appending a step adds its cost.
proof fn lemma_path_cost_push(map: GameMap, p: Seq<Entity>, x: Entity)
    requires
        p.len() >= 1,
    ensures
        path_cost(map, p.push(x)) == path_cost(map, p) + spec_exit_cost(
            map,
            p.last() as int,
            x as int,
        ),
    decreases p.len(),
{
    if p.len() == 1 {
        assert(p.push(x).drop_first() =~= seq![x]);
        assert(p.push(x)[0] == p[0] && p.push(x)[1] == x);
        assert(path_cost(map, p.push(x).drop_first()) == 0);
        assert(path_cost(map, p.push(x)) == spec_exit_cost(map, p[0] as int, x as int));
        assert(path_cost(map, p) == 0);
        assert(p.last() == p[0]);
    } else {
        assert(p.push(x).drop_first() =~= p.drop_first().push(x));
        lemma_path_cost_push(map, p.drop_first(), x);
        assert(p.push(x)[0] == p[0] && p.push(x)[1] == p[1]);
        assert(path_cost(map, p.push(x)) == spec_exit_cost(map, p[0] as int, p[1] as int)
            + path_cost(map, p.drop_first().push(x)));
        assert(p.drop_first().last() == p.last());
        assert(path_cost(map, p) == spec_exit_cost(map, p[0] as int, p[1] as int) + path_cost(
            map,
            p.drop_first(),
        ));
    }
}

/// Every walk has nonnegative cost.
proof fn lemma_path_cost_nonneg(map: GameMap, p: Seq<Entity>)
    ensures
        path_cost(map, p) >= 0,
    decreases p.len(),
{
    if p.len() > 1 {
        lemma_path_cost_nonneg(map, p.drop_first());
    }
}

/// The heart of the cheapest-first argument: once the start is finished,
/// every walk ending at a finished tile costs at least that tile's label,
/// and every walk ending anywhere else costs at least the cheapest
/// unfinished label `dmin`.
proof fn lemma_dijkstra_lower_bound(
    map: GameMap,
    reached: Seq<bool>,
    done: Seq<bool>,
    dist: Seq<u64>,
    start: usize,
    q: Seq<Entity>,
    v: usize,
    dmin: int,
)
    requires
        map.spec_wf(),
        reached.len() == map.size.spec_area(),
        done.len() == map.size.spec_area(),
        dist.len() == map.size.spec_area(),
        start < map.size.spec_area(),
        done[start as int],
        dist[start as int] == 0,
        forall|w: int| 0 <= w < done.len() && done[w] ==> reached[w],
        forall|u: int, j: int|
            0 <= u < done.len() && 0 <= j < done.len() && done[u] && step_ok(map, u, j)
                ==> reached[j] && dist[j] as int <= dist[u] as int + spec_exit_cost(map, u, j),
        forall|w: int| 0 <= w < done.len() && reached[w] && !done[w] ==> dist[w] as int >= dmin,
        forall|w: int| 0 <= w < done.len() && done[w] ==> dist[w] as int <= dmin,
        is_path(map, q, start, v),
        v < map.size.spec_area(),
    ensures
        path_cost(map, q) >= (if done[v as int] {
            dist[v as int] as int
        } else {
            dmin
        }),
    decreases q.len(),
{
    if q.len() == 1 {
        assert(v == start);
    } else {
        let qp = q.drop_last();
        let w = q[q.len() - 2];
        assert(step_ok(map, w as int, v as int));
        assert(is_path(map, qp, start, w)) by {
            assert(qp[0] == q[0]);
            assert(qp[qp.len() - 1] == w);
            assert forall|k: int|
                0 <= k < qp.len() - 1 implies step_ok(map, #[trigger] qp[k] as int, qp[k
                + 1] as int) by {
                assert(qp[k] == q[k] && qp[k + 1] == q[k + 1]);
                assert(step_ok(map, q[k] as int, q[k + 1] as int));
            }
        }
        lemma_dijkstra_lower_bound(map, reached, done, dist, start, qp, w, dmin);
        assert(q =~= qp.push(v));
        lemma_path_cost_push(map, qp, v);
        let c = spec_exit_cost(map, w as int, v as int) as int;
        assert(c >= 100);
        if done[w as int] {
            assert(reached[v as int] && dist[v as int] as int <= dist[w as int] as int + c);
        } else {
        }
    }
}

/// Rebuild the forward walk certified by the parent labels: follow parents
/// from `goal` back to `start`, then reverse.  Its total weight is exactly
/// the goal's distance label.
#[verifier::rlimit(100)]
fn reconstruct_path(
    map: &GameMap,
    reached: &Vec<bool>,
    parent: &Vec<usize>,
    depth: &Vec<usize>,
    dist: &Vec<u64>,
    start: usize,
    goal: usize,
) -> (p: Vec<usize>)
    requires
        map.spec_wf(),
        reached@.len() == map.size.spec_area(),
        parent@.len() == map.size.spec_area(),
        depth@.len() == map.size.spec_area(),
        dist@.len() == map.size.spec_area(),
        start < map.size.spec_area(),
        goal < map.size.spec_area(),
        reached@[start as int],
        reached@[goal as int],
        dist@[start as int] == 0,
        forall|v: int|
            0 <= v < reached@.len() && #[trigger] reached@[v] && v != start ==> parent@[v]
                < reached@.len() && reached@[parent@[v] as int] && step_ok(
                *map,
                parent@[v] as int,
                v,
            ) && depth@[v] == depth@[parent@[v] as int] + 1 && dist@[v] as int
                == dist@[parent@[v] as int] as int + spec_exit_cost(*map, parent@[v] as int, v),
    ensures
        is_path(*map, p@, start, goal),
        path_cost(*map, p@) == dist@[goal as int] as int,
{
    let area = reached.len();
    let mut rev: Vec<usize> = Vec::new();
    rev.push(goal);
    let mut cur: usize = goal;
    while cur != start
        invariant
            map.spec_wf(),
            area == map.size.spec_area(),
            start < area,
            goal < area,
            reached@.len() == area,
            parent@.len() == area,
            depth@.len() == area,
            dist@.len() == area,
            reached@[start as int],
            dist@[start as int] == 0,
            forall|v: int|
                0 <= v < area && #[trigger] reached@[v] && v != start ==> parent@[v] < area
                    && reached@[parent@[v] as int] && step_ok(*map, parent@[v] as int, v)
                    && depth@[v] == depth@[parent@[v] as int] + 1 && dist@[v] as int
                    == dist@[parent@[v] as int] as int + spec_exit_cost(*map, parent@[v] as int, v),
            cur < area,
            reached@[cur as int],
            rev@.len() >= 1,
            rev@[0] == goal,
            rev@[rev@.len() - 1] == cur,
            forall|k: int| 0 <= k < rev@.len() ==> #[trigger] rev@[k] < area,
            forall|k: int| 0 <= k < rev@.len() ==> reached@[#[trigger] rev@[k] as int],
            forall|k: int|
                0 <= k < rev@.len() - 1 ==> #[trigger] rev@[k + 1] == parent@[rev@[k] as int]
                    && rev@[k] != start,
            forall|k: int|
                0 <= k < rev@.len() - 1 ==> step_ok(
                    *map,
                    #[trigger] rev@[k + 1] as int,
                    rev@[k] as int,
                ),
        decreases depth@[cur as int],
    {
        let par = parent[cur];
        rev.push(par);
        cur = par;
    }
    let n = rev.len();
    let mut path: Vec<usize> = Vec::new();
    let mut i: usize = 0;
    while i < n
        invariant
            map.spec_wf(),
            area == map.size.spec_area(),
            start < area,
            goal < area,
            dist@.len() == area,
            parent@.len() == area,
            reached@.len() == area,
            dist@[start as int] == 0,
            n == rev@.len(),
            n >= 1,
            i <= n,
            path@.len() == i,
            rev@[0] == goal,
            rev@[n - 1] == start,
            forall|k: int| 0 <= k < n ==> #[trigger] rev@[k] < area,
            forall|k: int|
                0 <= k < n - 1 ==> #[trigger] rev@[k + 1] == parent@[rev@[k] as int] && rev@[k]
                    != start,
            forall|k: int|
                0 <= k < n - 1 ==> step_ok(*map, #[trigger] rev@[k + 1] as int, rev@[k] as int),
            forall|v: int|
                0 <= v < area && #[trigger] reached@[v] && v != start ==> dist@[v] as int
                    == dist@[parent@[v] as int] as int + spec_exit_cost(*map, parent@[v] as int, v),
            forall|k: int| 0 <= k < n ==> reached@[#[trigger] rev@[k] as int],
            forall|k: int| 0 <= k < i ==> #[trigger] path@[k] == rev@[n - 1 - k],
            i >= 1 ==> path_cost(*map, path@) == dist@[rev@[n - i] as int] as int,
        decreases n - i,
    {
        let x = rev[n - 1 - i];
        let ghost path_pre = path@;
        path.push(x);
        proof {
            if i >= 1 {
                assert(path_pre.last() == rev@[n - i]);
                assert(rev@[(n - 1 - i) + 1] == parent@[rev@[n - 1 - i] as int]);
                assert(parent@[x as int] == rev@[n - i]);
                assert(x != start);
                assert(dist@[x as int] as int == dist@[rev@[n - i] as int] as int
                    + spec_exit_cost(*map, rev@[n - i] as int, x as int));
                lemma_path_cost_push(*map, path_pre, x);
            }
        }
        i = i + 1;
    }
    proof {
        assert(path@[0] == rev@[n - 1]);
        assert(path@[path@.len() - 1] == rev@[0]);
        assert forall|k: int|
            0 <= k < path@.len() - 1 implies step_ok(
            *map,
            #[trigger] path@[k] as int,
            path@[k + 1] as int,
        ) by {
            assert(path@[k] == rev@[n - 1 - k]);
            assert(path@[k + 1] == rev@[n - 2 - k]);
            assert(step_ok(*map, rev@[(n - 2 - k) + 1] as int, rev@[n - 2 - k] as int));
        }
        assert(is_path(*map, path@, start, goal));
    }
    path
}

/// Cheapest-first search from `start` to `goal` over the map's exit lists.
///
/// Returns a walk that includes both endpoints and has minimal total weight
/// among all walks from `start` to `goal`, or `None` exactly when no walk
/// exists.  The start tile may be blocked (an actor searches from its own
/// tile); every later tile of a returned walk is unblocked.
#[verifier::rlimit(100)]
pub fn a_star_search(map: &GameMap, start: usize, goal: usize) -> (r: Option<Vec<usize>>)
    requires
        map.spec_wf(),
        start < map.size.spec_area(),
        goal < map.size.spec_area(),
    ensures
        r matches Some(p) ==> is_path(*map, p@, start, goal) && (forall|q: Seq<Entity>|
            is_path(*map, q, start, goal) ==> path_cost(*map, q) >= path_cost(*map, p@)),
        r is None ==> !has_path(*map, start, goal),
{
    let area = map.tiles.len();
    proof {
        assert(area <= 16384 * 16384) by (nonlinear_arith)
            requires
                area == map.size.spec_width() * map.size.spec_height(),
                0 < map.size.spec_width() <= 16384,
                0 < map.size.spec_height() <= 16384,
        ;
    }
    let mut reached: Vec<bool> = fill_copy(area, false);
    let mut done: Vec<bool> = fill_copy(area, false);
    let mut dist: Vec<u64> = fill_copy(area, 0u64);
    let mut parent: Vec<usize> = fill_copy(area, 0usize);
    let mut depth: Vec<usize> = fill_copy(area, 0usize);
    reached[start] = true;
    let mut count_done: usize = 0;
    proof {
        lemma_count_trues_none(done@);
    }

    while count_done < area
        invariant
            map.spec_wf(),
            area == map.size.spec_area(),
            area <= 16384 * 16384,
            start < area,
            goal < area,
            reached@.len() == area,
            done@.len() == area,
            dist@.len() == area,
            parent@.len() == area,
            depth@.len() == area,
            reached@[start as int],
            dist@[start as int] == 0,
            !done@[goal as int],
            count_done == count_trues(done@),
            0 <= count_done <= area,
            !done@[start as int] ==> count_done == 0 && (forall|v: int|
                0 <= v < area && reached@[v] ==> v == start as int),
            forall|v: int| 0 <= v < area && done@[v] ==> reached@[v],
            forall|v: int|
                0 <= v < area && #[trigger] reached@[v] ==> dist@[v] as int <= 145 * (
                count_done as int),
            forall|u: int, j: int|
                0 <= u < area && 0 <= j < area && done@[u] && step_ok(*map, u, j)
                    ==> reached@[j] && dist@[j] as int <= dist@[u] as int + spec_exit_cost(
                    *map,
                    u,
                    j,
                ),
            forall|w: int, v: int|
                0 <= w < area && 0 <= v < area && done@[w] && reached@[v] && !done@[v]
                    ==> dist@[w] as int <= dist@[v] as int,
            forall|v: int|
                0 <= v < area && #[trigger] reached@[v] && v != start ==> parent@[v] < area
                    && reached@[parent@[v] as int] && done@[parent@[v] as int] && step_ok(
                    *map,
                    parent@[v] as int,
                    v,
                ) && depth@[v] == depth@[parent@[v] as int] + 1 && dist@[v] as int
                    == dist@[parent@[v] as int] as int + spec_exit_cost(
                    *map,
                    parent@[v] as int,
                    v,
                ),
            forall|v: int| 0 <= v < area && #[trigger] reached@[v] ==> depth@[v] <= count_done,
        decreases area - count_done,
    {
        let mut best: usize = area;
        let mut best_dist: u64 = 0;
        let mut s: usize = 0;
        while s < area
            invariant
                area == reached@.len(),
                area == done@.len(),
                area == dist@.len(),
                s <= area,
                best == area || (best < area && reached@[best as int] && !done@[best as int]
                    && best_dist == dist@[best as int]),
                best == area ==> forall|v: int| 0 <= v < s ==> (reached@[v] ==> done@[v]),
                best != area ==> forall|v: int|
                    0 <= v < s && reached@[v] && !done@[v] ==> dist@[v] >= best_dist,
            decreases area - s,
        {
            if reached[s] && !done[s] {
                if best == area || dist[s] < best_dist {
                    best = s;
                    best_dist = dist[s];
                }
            }
            s = s + 1;
        }
        if best == area {
            proof {
                assert(!reached@[goal as int]);
                assert forall|i: int, j: int|
                    0 <= i < reached@.len() && 0 <= j < reached@.len() && reached@[i] && step_ok(
                        *map,
                        i,
                        j,
                    ) implies reached@[j] by {
                    assert(done@[i]);
                }
                lemma_closed_no_path(*map, reached@, start, goal);
            }
            return None;
        }

        if best == goal {
            let path = reconstruct_path(map, &reached, &parent, &depth, &dist, start, goal);
            proof {
                assert forall|q: Seq<Entity>|
                    is_path(*map, q, start, goal) implies path_cost(*map, q) >= path_cost(
                    *map,
                    path@,
                ) by {
                    if goal == start {
                        lemma_path_cost_nonneg(*map, q);
                    } else {
                        assert(done@[start as int]);
                        lemma_dijkstra_lower_bound(
                            *map,
                            reached@,
                            done@,
                            dist@,
                            start,
                            q,
                            goal,
                            dist@[goal as int] as int,
                        );
                    }
                }
            }
            return Some(path);
        }

        let exits = map.get_available_exits(best);
        let ghost exits_seq = exits@;
        let ghost dist_best = dist@[best as int];
        let mut q: usize = 0;
        while q < exits.len()
            invariant
                map.spec_wf(),
                area == map.size.spec_area(),
                area <= 16384 * 16384,
                start < area,
                goal < area,
                best < area,
                best != goal,
                best != area,
                reached@.len() == area,
                done@.len() == area,
                dist@.len() == area,
                parent@.len() == area,
                depth@.len() == area,
                reached@[start as int],
                dist@[start as int] == 0,
                reached@[best as int],
                !done@[best as int],
                !done@[goal as int],
                count_done == count_trues(done@),
                count_done < area,
                dist@[best as int] == dist_best,
                depth@[best as int] <= count_done,
                dist_best as int <= 145 * (count_done as int),
                exits_seq == exits@,
                q <= exits@.len(),
                forall|m: int|
                    0 <= m < exits_seq.len() ==> step_ok(
                        *map,
                        best as int,
                        #[trigger] exits_seq[m].0 as int,
                    ) && exits_seq[m].1 == spec_exit_cost(*map, best as int, exits_seq[m].0 as int),
                forall|m: int|
                    0 <= m < q ==> reached@[#[trigger] exits_seq[m].0 as int]
                        && dist@[exits_seq[m].0 as int] as int <= dist_best as int
                        + exits_seq[m].1 as int,
                !done@[start as int] ==> count_done == 0 && best == start && (forall|v: int|
                    0 <= v < area && reached@[v] && v != start as int ==> parent@[v] == best),
                forall|v: int| 0 <= v < area && done@[v] ==> reached@[v],
                forall|v: int|
                    0 <= v < area && #[trigger] reached@[v] ==> dist@[v] as int <= 145 * (
                    count_done as int + 1),
                forall|u: int, j: int|
                    0 <= u < area && 0 <= j < area && done@[u] && step_ok(*map, u, j)
                        ==> reached@[j] && dist@[j] as int <= dist@[u] as int + spec_exit_cost(
                        *map,
                        u,
                        j,
                    ),
                forall|w: int|
                    0 <= w < area && done@[w] ==> dist@[w] as int <= dist_best as int,
                forall|v: int|
                    0 <= v < area && reached@[v] && !done@[v] ==> dist@[v] as int
                        >= dist_best as int,
                forall|v: int|
                    0 <= v < area && #[trigger] reached@[v] && v != start ==> parent@[v] < area
                        && reached@[parent@[v] as int] && (done@[parent@[v] as int] || parent@[v]
                        == best) && step_ok(*map, parent@[v] as int, v) && depth@[v]
                        == depth@[parent@[v] as int] + 1 && dist@[v] as int
                        == dist@[parent@[v] as int] as int + spec_exit_cost(
                        *map,
                        parent@[v] as int,
                        v,
                    ),
                forall|v: int|
                    0 <= v < area && #[trigger] reached@[v] ==> depth@[v] <= count_done + 1,
            decreases exits@.len() - q,
        {
            let pair = exits[q];
            let j = pair.0;
            let c = pair.1;
            proof {
                assert(step_ok(*map, best as int, j as int));
                assert(j != best) by {
                    assert(!(adjacent(*map, best as int, best as int)));
                }
            }
            let nd = dist[best] + (c as u64);
            if !reached[j] {
                reached[j] = true;
                dist[j] = nd;
                parent[j] = best;
                let dpth = depth[best] + 1;
                depth[j] = dpth;
            } else if !done[j] && nd < dist[j] {
                dist[j] = nd;
                parent[j] = best;
                let dpth = depth[best] + 1;
                depth[j] = dpth;
            }
            q = q + 1;
        }
        proof {
            assert forall|j: int|
                0 <= j < area && step_ok(*map, best as int, j) implies reached@[j]
                && dist@[j] as int <= dist@[best as int] as int + spec_exit_cost(
                *map,
                best as int,
                j,
            ) by {
                let ju = j as usize;
                assert(step_ok(*map, best as int, ju as int));
                let m = choose|m: int| 0 <= m < exits@.len() && #[trigger] exits@[m].0 == ju;
                assert(reached@[exits_seq[m].0 as int] && dist@[exits_seq[m].0 as int] as int
                    <= dist_best as int + exits_seq[m].1 as int);
            }
        }
        let ghost done_pre = done@;
        done[best] = true;
        count_done = count_done + 1;
        proof {
            lemma_count_trues_update(done_pre, best as int);
            lemma_count_trues_bounds(done@);
        }
    }
    proof {
        lemma_count_trues_all(done@, goal as int);
        assert(false);
    }
    None
}

} // verus!