//! Pathfinding over the map: a breadth-first search across the
//! 8-connected grid that respects the `blocked` array. A returned path
//! starts at the start tile, ends at the goal tile, steps only between
//! adjacent tiles, never enters a blocked tile after the start, and is
//! as short as any path with those properties. The search succeeds if
//! and only if such a path exists.

use vstd::prelude::*;
use crate::map::GameMap;

verus! {

/// The column a flat tile index addresses.
pub open spec fn idx_x(m: GameMap, i: int) -> int {
    i % (m.width as int)
}

/// The row a flat tile index addresses.
pub open spec fn idx_y(m: GameMap, i: int) -> int {
    i / (m.width as int)
}

/// Two distinct tiles whose coordinates differ by at most one on each
/// axis: the 8-connected neighborhood.
pub open spec fn adjacent(m: GameMap, a: int, b: int) -> bool {
    &&& 0 <= a < m.tiles@.len()
    &&& 0 <= b < m.tiles@.len()
    &&& a != b
    &&& vstd::math::abs(idx_x(m, b) - idx_x(m, a)) <= 1
    &&& vstd::math::abs(idx_y(m, b) - idx_y(m, a)) <= 1
}

/// A valid walk from `s` to `g`: starts at `s`, ends at `g`, moves
/// between adjacent tiles, and never enters a blocked tile after the
/// start (the start itself may be blocked, as a monster's own tile is).
pub open spec fn is_path(m: GameMap, s: usize, g: usize, p: Seq<usize>) -> bool {
    &&& p.len() >= 1
    &&& p[0] == s
    &&& p[p.len() - 1] == g
    &&& forall|k: int| 0 <= k < p.len() - 1 ==> adjacent(m, (#[trigger] p[k]) as int, p[k + 1] as int)
    &&& forall|k: int| 1 <= k < p.len() ==> !m.blocked@[(#[trigger] p[k]) as int]
}

/// Some valid walk from `s` to `g` exists.
pub open spec fn reachable(m: GameMap, s: usize, g: usize) -> bool {
    exists|p: Seq<usize>| is_path(m, s, g, p)
}

/// What the pathfinding capability returns: a success flag and, on
/// success, the ordered list of traversed tile indices (index 0 is the
/// start).
pub struct NavigationPath {
    pub success: bool,
    pub steps: Vec<usize>,
}

/// How many entries of a boolean sequence are set.
pub open spec fn count_true(s: Seq<bool>) -> int
    decreases s.len(),
{
    if s.len() == 0 {
        0
    } else {
        count_true(s.drop_last()) + if s.last() {
            1int
        } else {
            0int
        }
    }
}

proof fn lemma_count_true_le(s: Seq<bool>)
    ensures
        0 <= count_true(s) <= s.len(),
    decreases s.len(),
{
    if s.len() > 0 {
        lemma_count_true_le(s.drop_last());
    }
}

proof fn lemma_count_true_zero(s: Seq<bool>)
    requires
        forall|i: int| 0 <= i < s.len() ==> !s[i],
    ensures
        count_true(s) == 0,
    decreases s.len(),
{
    if s.len() > 0 {
        lemma_count_true_zero(s.drop_last());
    }
}

proof fn lemma_count_true_update(s: Seq<bool>, i: int)
    requires
        0 <= i < s.len(),
        !s[i],
    ensures
        count_true(s.update(i, true)) == count_true(s) + 1,
    decreases s.len(),
{
    let t = s.update(i, true);
    if i == s.len() - 1 {
        assert(t.drop_last() =~= s.drop_last());
    } else {
        assert(t.drop_last() =~= s.drop_last().update(i, true));
        lemma_count_true_update(s.drop_last(), i);
    }
}

/// The soundness facts for one node: if visited and not the start, it
/// is unblocked and hangs off a visited parent one step closer to the
/// start.
pub open spec fn node_sound(
    m: GameMap,
    start: usize,
    visited: Seq<bool>,
    dist: Seq<usize>,
    parent: Seq<usize>,
    v: int,
) -> bool {
    visited[v] && v != start ==> {
        &&& !m.blocked@[v]
        &&& parent[v] < visited.len()
        &&& visited[parent[v] as int]
        &&& adjacent(m, parent[v] as int, v)
        &&& dist[v] == dist[parent[v] as int] + 1
    }
}

/// The per-node soundness facts the search maintains, for every node.
pub open spec fn bfs_sound(
    m: GameMap,
    start: usize,
    visited: Seq<bool>,
    dist: Seq<usize>,
    parent: Seq<usize>,
) -> bool {
    &&& visited.len() == m.tiles@.len()
    &&& dist.len() == m.tiles@.len()
    &&& parent.len() == m.tiles@.len()
    &&& (start as int) < visited.len()
    &&& visited[start as int]
    &&& dist[start as int] == 0
    &&& forall|v: int|
        0 <= v < visited.len() ==> #[trigger] node_sound(m, start, visited, dist, parent, v)
}

/// Closure: every unblocked neighbor of a visited node is visited, at a
/// distance label at most one larger. This is what the finished search
/// guarantees, and what makes its labels lower bounds for every path.
pub open spec fn bfs_closed(m: GameMap, visited: Seq<bool>, dist: Seq<usize>) -> bool {
    forall|u: int, w: int|
        0 <= u < visited.len() && 0 <= w < visited.len() && visited[u] && #[trigger] adjacent(
            m,
            u,
            w,
        ) && !m.blocked@[w] ==> visited[w] && dist[w] <= dist[u] + 1
}

/// Any walk from the start ends on a visited node whose distance label
/// is at most the number of steps the walk took.
proof fn lemma_path_visits(
    m: GameMap,
    start: usize,
    visited: Seq<bool>,
    dist: Seq<usize>,
    g: usize,
    p: Seq<usize>,
)
    requires
        visited.len() == m.tiles@.len(),
        dist.len() == m.tiles@.len(),
        (start as int) < visited.len(),
        visited[start as int],
        dist[start as int] == 0,
        bfs_closed(m, visited, dist),
        is_path(m, start, g, p),
    ensures
        (g as int) < visited.len(),
        visited[g as int],
        dist[g as int] <= p.len() - 1,
    decreases p.len(),
{
    if p.len() == 1 {
        assert(g == start);
    } else {
        let q = p.drop_last();
        let u = p[p.len() - 2];
        assert(is_path(m, start, u, q)) by {
            assert(forall|k: int|
                0 <= k < q.len() - 1 ==> adjacent(m, (#[trigger] q[k]) as int, q[k + 1] as int))
                by {
                assert(forall|k: int| 0 <= k < q.len() ==> #[trigger] q[k] == p[k]);
            }
        }
        lemma_path_visits(m, start, visited, dist, u, q);
        assert(adjacent(m, u as int, g as int));
        assert(!m.blocked@[g as int]);
    }
}

/// Everything the search maintains between expansions: soundness of the
/// parent labels, a queue that lists exactly the visited nodes once each
/// in nondecreasing distance order with the frontier at most one level
/// deep, distance labels below the visited count, and closure for every
/// node already expanded (the queue prefix before `qh`).
pub open spec fn bfs_inv(
    m: GameMap,
    start: usize,
    visited: Seq<bool>,
    dist: Seq<usize>,
    parent: Seq<usize>,
    queue: Seq<usize>,
    qh: int,
) -> bool {
    &&& bfs_sound(m, start, visited, dist, parent)
    &&& 0 <= qh <= queue.len()
    &&& forall|i: int|
        0 <= i < queue.len() ==> (#[trigger] queue[i]) < visited.len() && visited[queue[i] as int]
    &&& forall|i: int, j: int| 0 <= i < j < queue.len() ==> queue[i] != queue[j]
    &&& forall|v: int|
        0 <= v < visited.len() && #[trigger] visited[v] ==> exists|i: int|
            0 <= i < queue.len() && queue[i] == v
    &&& forall|v: int|
        0 <= v < visited.len() && #[trigger] visited[v] ==> dist[v] < count_true(visited)
    &&& forall|i: int, j: int|
        0 <= i <= j < queue.len() ==> #[trigger] dist_of(dist, queue, i) <= #[trigger] dist_of(
            dist,
            queue,
            j,
        )
    &&& (qh < queue.len() ==> forall|j: int|
        0 <= j < queue.len() ==> #[trigger] dist_of(dist, queue, j) <= dist_of(dist, queue, qh)
            + 1)
    &&& forall|k: int, w: int|
        0 <= k < qh && 0 <= w < visited.len() && #[trigger] adjacent(m, queue[k] as int, w)
            && !m.blocked@[w] ==> visited[w] && dist[w] <= dist[queue[k] as int] + 1
}

/// One neighbor visit (or a visit that changed nothing) keeps the whole
/// search invariant, and keeps the difference between the queue length
/// and the visited count unchanged.
proof fn lemma_visit_preserves(
    m: GameMap,
    start: usize,
    v0: Seq<bool>,
    d0: Seq<usize>,
    p0: Seq<usize>,
    q0: Seq<usize>,
    v1: Seq<bool>,
    d1: Seq<usize>,
    p1: Seq<usize>,
    q1: Seq<usize>,
    qh: int,
    u: usize,
    w: usize,
)
    requires
        bfs_inv(m, start, v0, d0, p0, q0, qh),
        v0.len() <= usize::MAX,
        0 <= qh < q0.len(),
        u == q0[qh],
        (v1 == v0 && d1 == d0 && p1 == p0 && q1 == q0) || ((w as int) < v0.len() && !v0[w as int]
            && !m.blocked@[w as int] && adjacent(m, u as int, w as int) && v1 == v0.update(
            w as int,
            true,
        ) && d1 == d0.update(w as int, (d0[u as int] + 1) as usize) && p1 == p0.update(w as int, u)
            && q1 == q0.push(w)),
    ensures
        bfs_inv(m, start, v1, d1, p1, q1, qh),
        q1.len() - count_true(v1) == q0.len() - count_true(v0),
        count_true(v0) <= count_true(v1),
        forall|v: int| 0 <= v < v0.len() && v0[v] ==> v1[v] && d1[v] == d0[v],
{
    if v1 == v0 && d1 == d0 && p1 == p0 && q1 == q0 {
    } else {
        lemma_count_true_update(v0, w as int);
        lemma_count_true_le(v0);
        assert(d0[u as int] < count_true(v0));
        assert(w != start);
        // the fresh node is not yet in the queue
        assert(forall|i: int| 0 <= i < q0.len() ==> (#[trigger] q0[i]) != w);
        // completeness: every visited node still appears
        assert forall|v: int| 0 <= v < v1.len() && #[trigger] v1[v] implies exists|i: int|
            0 <= i < q1.len() && q1[i] == v by {
            if v == w {
                assert(q1[q1.len() - 1] == v);
            } else {
                assert(v0[v]);
                let i = choose|i: int| 0 <= i < q0.len() && q0[i] == v;
                assert(q1[i] == v);
            }
        }
        // soundness holds at the fresh node and survives at old ones
        assert forall|v: int| 0 <= v < v1.len() implies #[trigger] node_sound(
            m,
            start,
            v1,
            d1,
            p1,
            v,
        ) by {
            if v1[v] && v != start {
                if v == w {
                    assert(p1[v] == u && v1[u as int] && d1[u as int] == d0[u as int]);
                } else {
                    assert(v0[v] && p1[v] == p0[v] && d1[v] == d0[v]);
                    assert(node_sound(m, start, v0, d0, p0, v));
                    assert(v0[p0[v] as int]);
                    assert(p0[v] != w && (p0[v] as int) != (w as int));
                    assert(d1[p0[v] as int] == d0[p0[v] as int]);
                }
            }
        }
        // every visited node keeps a label below the visited count
        assert forall|v: int| 0 <= v < v1.len() && #[trigger] v1[v] implies d1[v] < count_true(
            v1,
        ) by {
            if v == w {
                assert(d1[v] == d0[u as int] + 1 && d0[u as int] < count_true(v0));
            } else {
                assert(v0[v] && d1[v] == d0[v]);
            }
        }
        // distance labels of previously visited nodes are untouched
        assert(forall|i: int|
            0 <= i < q0.len() ==> q1[i] == q0[i] && d1[(#[trigger] q0[i]) as int] == d0[q0[i] as int]);
        assert(q1[q1.len() - 1] == w && d1[w as int] == d0[u as int] + 1);
        // ordering across the push
        assert forall|i: int, j: int| 0 <= i <= j < q1.len() implies #[trigger] dist_of(d1, q1, i)
            <= #[trigger] dist_of(d1, q1, j) by {
            if j < q0.len() {
                assert(dist_of(d0, q0, i) <= dist_of(d0, q0, j));
            } else {
                assert(dist_of(d1, q1, j) == d0[u as int] + 1);
                if i < q0.len() {
                    assert(dist_of(d1, q1, i) == dist_of(d0, q0, i));
                    assert(dist_of(d0, q0, i) <= dist_of(d0, q0, qh) + 1);
                }
            }
        }
        // the frontier stays at most one level deep
        assert(dist_of(d1, q1, qh) == dist_of(d0, q0, qh));
        assert forall|j: int| 0 <= j < q1.len() implies #[trigger] dist_of(d1, q1, j) <= dist_of(
            d1,
            q1,
            qh,
        ) + 1 by {
            if j < q0.len() {
                assert(dist_of(d1, q1, j) == dist_of(d0, q0, j));
            } else {
                assert(dist_of(d1, q1, j) == d0[u as int] + 1);
            }
        }
        // closure of the expanded prefix survives the update
        assert forall|k: int, x: int|
            0 <= k < qh && 0 <= x < v1.len() && #[trigger] adjacent(m, q1[k] as int, x)
                && !m.blocked@[x] implies v1[x] && d1[x] <= d1[q1[k] as int] + 1 by {
            assert(q1[k] == q0[k]);
            assert(adjacent(m, q0[k] as int, x));
            assert(v0[x] && d0[x] <= d0[q0[k] as int] + 1);
        }
        // queue entries are visited nodes, each listed once
        assert forall|i: int| 0 <= i < q1.len() implies (#[trigger] q1[i]) < v1.len()
            && v1[q1[i] as int] by {
            if i < q0.len() {
                assert(q1[i] == q0[i] && v0[q0[i] as int]);
            } else {
                assert(q1[i] == w);
            }
        }
        assert forall|i: int, j: int| 0 <= i < j < q1.len() implies q1[i] != q1[j] by {
            if j < q0.len() {
                assert(q0[i] != q0[j]);
            } else {
                assert(q1[j] == w && q1[i] == q0[i] && q0[i] != w);
            }
        }
        assert(v1.len() == m.tiles@.len() && d1.len() == m.tiles@.len() && p1.len()
            == m.tiles@.len());
        assert((start as int) < v1.len());
        assert(v1[start as int]);
        assert(d1[start as int] == 0);
        assert(bfs_sound(m, start, v1, d1, p1));
    }
}

/// The distance label of the `i`-th queue entry.
pub open spec fn dist_of(dist: Seq<usize>, queue: Seq<usize>, i: int) -> usize {
    dist[queue[i] as int]
}

impl GameMap {
    /// Try to visit the neighbor of `u` that lies `dx`,`dy` away. If the
    /// neighbor exists, is not blocked and has not been seen, it is
    /// marked visited at distance `dist[u] + 1` with parent `u` and put
    /// on the queue; otherwise nothing changes.
    #[verifier::loop_isolation(false)]
    fn visit_neighbor(
        &self,
        visited: &mut Vec<bool>,
        dist: &mut Vec<usize>,
        parent: &mut Vec<usize>,
        queue: &mut Vec<usize>,
        u: usize,
        dx: i32,
        dy: i32,
    )
        requires
            self.wf(),
            (u as int) < self.tiles@.len(),
            old(visited).len() == self.tiles@.len(),
            old(dist).len() == self.tiles@.len(),
            old(parent).len() == self.tiles@.len(),
            -1 <= dx <= 1,
            -1 <= dy <= 1,
            old(visited)@[u as int],
            old(dist)@[u as int] < self.tiles@.len(),
        ensures
            ({
                let ux = idx_x(*self, u as int);
                let uy = idx_y(*self, u as int);
                let w = self.spec_idx(ux + dx, uy + dy);
                if self.in_bounds(ux + dx, uy + dy) && !(w == u) && !self.blocked@[w]
                    && !old(visited)@[w] {
                    &&& final(visited)@ == old(visited)@.update(w, true)
                    &&& final(dist)@ == old(dist)@.update(w, (old(dist)@[u as int] + 1) as usize)
                    &&& final(parent)@ == old(parent)@.update(w, u)
                    &&& final(queue)@ == old(queue)@.push(w as usize)
                    &&& 0 <= w < self.tiles@.len()
                    &&& adjacent(*self, u as int, w)
                } else {
                    &&& final(visited)@ == old(visited)@
                    &&& final(dist)@ == old(dist)@
                    &&& final(parent)@ == old(parent)@
                    &&& final(queue)@ == old(queue)@
                }
            }),
            // whether or not anything changed, the aimed-at neighbor is
            // now settled: visited unless off-map, blocked, or `u` itself
            ({
                let ux = idx_x(*self, u as int);
                let uy = idx_y(*self, u as int);
                let w = self.spec_idx(ux + dx, uy + dy);
                self.in_bounds(ux + dx, uy + dy) && !(w == u) && !self.blocked@[w]
                    ==> final(visited)@[w] && (old(visited)@[w] ==> final(dist)@[w] == old(
                    dist,
                )@[w]) && (!old(visited)@[w] ==> final(dist)@[w] == old(dist)@[u as int] + 1)
            }),
    {
        let p = self.idx_point(u);
        proof {
            vstd::arithmetic::div_mod::lemma_fundamental_div_mod(u as int, self.width as int);
            assert(self.spec_idx(p.x as int, p.y as int) == u);
            assert(idx_x(*self, u as int) == p.x && idx_y(*self, u as int) == p.y) by (
            nonlinear_arith)
                requires
                    0 < self.width,
                    0 <= p.x < self.width,
                    0 <= p.y,
                    u == p.y * self.width + p.x,
            ;
        }
        let nx = p.x + dx;
        let ny = p.y + dy;
        if nx >= 0 && nx < self.width && ny >= 0 && ny < self.height {
            let w = self.xy_idx(nx, ny);
            proof {
                vstd::arithmetic::div_mod::lemma_fundamental_div_mod(w as int, self.width as int);
                assert(idx_x(*self, w as int) == nx && idx_y(*self, w as int) == ny) by (
                nonlinear_arith)
                    requires
                        0 < self.width,
                        0 <= nx < self.width,
                        0 <= ny,
                        w == ny * self.width + nx,
                ;
            }
            if w != u && !self.blocked[w] && !visited[w] {
                let du = dist[u];
                visited[w] = true;
                dist[w] = du + 1;
                parent[w] = u;
                queue.push(w);
            }
        }
    }

    /// Compute a shortest path from `start` to `goal` across the
    /// 8-connected grid, entering only unblocked tiles after the start.
    /// Succeeds exactly when such a path exists; on success `steps`
    /// lists the traversed tile indices with the start at index 0, and
    /// no valid walk between the two tiles is shorter.
    #[verifier::loop_isolation(false)]
    #[verifier::rlimit(60)]
    pub fn find_path(&self, start: usize, goal: usize) -> (r: NavigationPath)
        requires
            self.wf(),
            (start as int) < self.tiles@.len(),
            (goal as int) < self.tiles@.len(),
        ensures
            r.success <==> reachable(*self, start, goal),
            r.success ==> is_path(*self, start, goal, r.steps@),
            r.success ==> forall|q: Seq<usize>|
                is_path(*self, start, goal, q) ==> r.steps@.len() <= q.len(),
            !r.success ==> r.steps@.len() == 0,
    {
        let n = self.tiles.len();
        let mut visited: Vec<bool> = vec![false; n];
        let mut dist: Vec<usize> = vec![0; n];
        let mut parent: Vec<usize> = vec![0; n];
        let mut queue: Vec<usize> = Vec::new();
        visited[start] = true;
        queue.push(start);
        let mut qh: usize = 0;
        proof {
            lemma_count_true_zero(Seq::new(n as nat, |i: int| false));
            lemma_count_true_update(Seq::new(n as nat, |i: int| false), start as int);
            assert(visited@ =~= Seq::new(n as nat, |i: int| false).update(start as int, true));
            assert(count_true(visited@) == 1);
            assert(bfs_inv(*self, start, visited@, dist@, parent@, queue@, 0)) by {
                assert(forall|v: int|
                    0 <= v < n ==> #[trigger] node_sound(
                        *self,
                        start,
                        visited@,
                        dist@,
                        parent@,
                        v,
                    ));
                assert(queue@[0] == start);
            }
        }
        while qh < queue.len()
            invariant
                bfs_inv(*self, start, visited@, dist@, parent@, queue@, qh as int),
                visited@.len() == n,
                dist@.len() == n,
                parent@.len() == n,
            decreases n - count_true(visited@) + queue@.len() - qh,
        {
            let u = queue[qh];
            proof {
                lemma_count_true_le(visited@);
            }
            let ghost s0 = (visited@, dist@, parent@, queue@);
            self.visit_neighbor(&mut visited, &mut dist, &mut parent, &mut queue, u, -1, -1);
            proof {
                self.reestablish(start, s0, (visited@, dist@, parent@, queue@), qh as int, u, -1, -1);
            }
            let ghost s1 = (visited@, dist@, parent@, queue@);
            self.visit_neighbor(&mut visited, &mut dist, &mut parent, &mut queue, u, 0, -1);
            proof {
                self.reestablish(start, s1, (visited@, dist@, parent@, queue@), qh as int, u, 0, -1);
            }
            let ghost s2 = (visited@, dist@, parent@, queue@);
            self.visit_neighbor(&mut visited, &mut dist, &mut parent, &mut queue, u, 1, -1);
            proof {
                self.reestablish(start, s2, (visited@, dist@, parent@, queue@), qh as int, u, 1, -1);
            }
            let ghost s3 = (visited@, dist@, parent@, queue@);
            self.visit_neighbor(&mut visited, &mut dist, &mut parent, &mut queue, u, -1, 0);
            proof {
                self.reestablish(start, s3, (visited@, dist@, parent@, queue@), qh as int, u, -1, 0);
            }
            let ghost s4 = (visited@, dist@, parent@, queue@);
            self.visit_neighbor(&mut visited, &mut dist, &mut parent, &mut queue, u, 1, 0);
            proof {
                self.reestablish(start, s4, (visited@, dist@, parent@, queue@), qh as int, u, 1, 0);
            }
            let ghost s5 = (visited@, dist@, parent@, queue@);
            self.visit_neighbor(&mut visited, &mut dist, &mut parent, &mut queue, u, -1, 1);
            proof {
                self.reestablish(start, s5, (visited@, dist@, parent@, queue@), qh as int, u, -1, 1);
            }
            let ghost s6 = (visited@, dist@, parent@, queue@);
            self.visit_neighbor(&mut visited, &mut dist, &mut parent, &mut queue, u, 0, 1);
            proof {
                self.reestablish(start, s6, (visited@, dist@, parent@, queue@), qh as int, u, 0, 1);
            }
            let ghost s7 = (visited@, dist@, parent@, queue@);
            self.visit_neighbor(&mut visited, &mut dist, &mut parent, &mut queue, u, 1, 1);
            proof {
                self.reestablish(start, s7, (visited@, dist@, parent@, queue@), qh as int, u, 1, 1);
            }
            proof {
                let ghost sf = (visited@, dist@, parent@, queue@);
                assert(neighbor_settled(*self, u, -1, -1, sf.0, sf.1));
                assert(neighbor_settled(*self, u, 0, -1, sf.0, sf.1));
                assert(neighbor_settled(*self, u, 1, -1, sf.0, sf.1));
                assert(neighbor_settled(*self, u, -1, 0, sf.0, sf.1));
                assert(neighbor_settled(*self, u, 1, 0, sf.0, sf.1));
                assert(neighbor_settled(*self, u, -1, 1, sf.0, sf.1));
                assert(neighbor_settled(*self, u, 0, 1, sf.0, sf.1));
                assert(neighbor_settled(*self, u, 1, 1, sf.0, sf.1));
                assert forall|dx: int, dy: int| -1 <= dx <= 1 && -1 <= dy <= 1 implies #[trigger]
                    neighbor_settled(*self, u, dx, dy, sf.0, sf.1) by {
                    if dx == 0 && dy == 0 {
                        let ux = idx_x(*self, u as int);
                        let uy = idx_y(*self, u as int);
                        vstd::arithmetic::div_mod::lemma_fundamental_div_mod(
                            u as int,
                            self.width as int,
                        );
                        assert(u as int == (self.width as int) * uy + ux);
                        assert(uy * (self.width as int) == (self.width as int) * uy)
                            by (nonlinear_arith);
                        assert(self.spec_idx(ux + 0, uy + 0) == u);
                    }
                }
                self.lemma_u_expanded(start, u, qh as int, sf);
            }
            qh += 1;
            proof {
                assert forall|j: int|
                    qh < queue@.len() && 0 <= j < queue@.len() implies #[trigger] dist_of(
                    dist@,
                    queue@,
                    j,
                ) <= dist_of(dist@, queue@, qh as int) + 1 by {
                    assert(dist_of(dist@, queue@, qh - 1) <= dist_of(dist@, queue@, qh as int));
                    assert(dist_of(dist@, queue@, j) <= dist_of(dist@, queue@, qh - 1) + 1);
                }
            }
        }
        // the queue is exhausted: every visited node has been expanded
        proof {
            assert forall|u: int, w: int|
                0 <= u < n && 0 <= w < n && visited@[u] && #[trigger] adjacent(*self, u, w)
                    && !self.blocked@[w] implies visited@[w] && dist@[w] <= dist@[u] + 1 by {
                let k = choose|k: int| 0 <= k < queue@.len() && queue@[k] == u;
                assert(0 <= k < qh);
                assert(adjacent(*self, queue@[k] as int, w));
            }
            assert(bfs_closed(*self, visited@, dist@));
        }
        if !visited[goal] {
            proof {
                assert(!reachable(*self, start, goal)) by {
                    if reachable(*self, start, goal) {
                        let p = choose|p: Seq<usize>| is_path(*self, start, goal, p);
                        lemma_path_visits(*self, start, visited@, dist@, goal, p);
                    }
                }
            }
            return NavigationPath { success: false, steps: Vec::new() };
        }
        let steps = self.reconstruct(start, goal, &visited, &dist, &parent);
        proof {
            assert(reachable(*self, start, goal)) by {
                assert(is_path(*self, start, goal, steps@));
            }
            assert forall|q: Seq<usize>| is_path(*self, start, goal, q) implies steps@.len()
                <= q.len() by {
                lemma_path_visits(*self, start, visited@, dist@, goal, q);
            }
        }
        NavigationPath { success: true, steps }
    }
}

/// Shorthand for the four arrays the search updates.
pub open spec fn bstate_inv(
    m: GameMap,
    start: usize,
    s: (Seq<bool>, Seq<usize>, Seq<usize>, Seq<usize>),
    qh: int,
) -> bool {
    bfs_inv(m, start, s.0, s.1, s.2, s.3, qh)
}


/// The neighbor of `u` that lies `dx`,`dy` away is settled: if it
/// exists, differs from `u` and is unblocked, it has been visited with
/// a distance label at most `dist[u] + 1`.
pub open spec fn neighbor_settled(
    m: GameMap,
    u: usize,
    dx: int,
    dy: int,
    visited: Seq<bool>,
    dist: Seq<usize>,
) -> bool {
    let ux = idx_x(m, u as int);
    let uy = idx_y(m, u as int);
    let w = m.spec_idx(ux + dx, uy + dy);
    m.in_bounds(ux + dx, uy + dy) && w != u && !m.blocked@[w] ==> {
        &&& 0 <= w < visited.len()
        &&& visited[w]
        &&& dist[w] <= dist[u as int] + 1
    }
}

impl GameMap {
    /// Rebuild the path the finished search found, by walking the
    /// parent labels back from the goal and reversing the walk.
    #[verifier::loop_isolation(false)]
    fn reconstruct(
        &self,
        start: usize,
        goal: usize,
        visited: &Vec<bool>,
        dist: &Vec<usize>,
        parent: &Vec<usize>,
    ) -> (steps: Vec<usize>)
        requires
            self.wf(),
            bfs_sound(*self, start, visited@, dist@, parent@),
            (goal as int) < visited@.len(),
            visited@[goal as int],
        ensures
            is_path(*self, start, goal, steps@),
            steps@.len() == dist@[goal as int] + 1,
    {
        let n = visited.len();
        let mut rev: Vec<usize> = Vec::new();
        rev.push(goal);
        let mut cur = goal;
        while cur != start
            invariant
                rev@.len() >= 1,
                rev@[0] == goal,
                rev@[rev@.len() - 1] == cur,
                (cur as int) < n,
                visited@[cur as int],
                dist@[cur as int] + rev@.len() - 1 == dist@[goal as int],
                forall|k: int|
                    0 <= k < rev@.len() - 1 ==> adjacent(
                        *self,
                        rev@[k + 1] as int,
                        (#[trigger] rev@[k]) as int,
                    ),
                forall|k: int|
                    0 <= k < rev@.len() - 1 ==> !self.blocked@[(#[trigger] rev@[k]) as int],
            decreases dist@[cur as int],
        {
            proof {
                assert(node_sound(*self, start, visited@, dist@, parent@, cur as int));
            }
            let pr = parent[cur];
            rev.push(pr);
            cur = pr;
        }
        let len = rev.len();
        let mut steps: Vec<usize> = Vec::new();
        let mut i: usize = 0;
        while i < len
            invariant
                i <= len,
                len == rev@.len(),
                steps@.len() == i,
                forall|j: int| 0 <= j < i ==> #[trigger] steps@[j] == rev@[len - 1 - j],
            decreases len - i,
        {
            steps.push(rev[len - 1 - i]);
            i += 1;
        }
        proof {
            assert(is_path(*self, start, goal, steps@)) by {
                assert(steps@[0] == rev@[len - 1]);
                assert(steps@[steps@.len() - 1] == rev@[0]);
                assert forall|k: int| 0 <= k < steps@.len() - 1 implies adjacent(
                    *self,
                    (#[trigger] steps@[k]) as int,
                    steps@[k + 1] as int,
                ) by {
                    assert(steps@[k] == rev@[len - 1 - k] && steps@[k + 1] == rev@[len - 2 - k]);
                    assert(adjacent(*self, rev@[len - 1 - k] as int, rev@[len - 2 - k] as int));
                }
                assert forall|k: int|
                    1 <= k < steps@.len() implies !self.blocked@[(#[trigger] steps@[k]) as int] by {
                    assert(steps@[k] == rev@[len - 1 - k]);
                }
            }
        }
        steps
    }

    /// Wrap `lemma_visit_preserves` around one `visit_neighbor` call:
    /// from the before and after states and the call's contract, recover
    /// the search invariant, settle the aimed-at neighbor, and keep
    /// every previously settled neighbor settled.
    proof fn reestablish(
        &self,
        start: usize,
        s0: (Seq<bool>, Seq<usize>, Seq<usize>, Seq<usize>),
        s1: (Seq<bool>, Seq<usize>, Seq<usize>, Seq<usize>),
        qh: int,
        u: usize,
        dx: int,
        dy: int,
    )
        requires
            self.wf(),
            bstate_inv(*self, start, s0, qh),
            s0.0.len() <= usize::MAX,
            0 <= qh < s0.3.len(),
            u == s0.3[qh],
            (u as int) < self.tiles@.len(),
            ({
                let ux = idx_x(*self, u as int);
                let uy = idx_y(*self, u as int);
                let w = self.spec_idx(ux + dx, uy + dy);
                if self.in_bounds(ux + dx, uy + dy) && !(w == u) && !self.blocked@[w]
                    && !s0.0[w] {
                    &&& s1.0 == s0.0.update(w, true)
                    &&& s1.1 == s0.1.update(w, (s0.1[u as int] + 1) as usize)
                    &&& s1.2 == s0.2.update(w, u)
                    &&& s1.3 == s0.3.push(w as usize)
                    &&& 0 <= w < self.tiles@.len()
                    &&& adjacent(*self, u as int, w)
                } else {
                    s1 == s0
                }
            }),
        ensures
            bstate_inv(*self, start, s1, qh),
            s1.3.len() - count_true(s1.0) == s0.3.len() - count_true(s0.0),
            count_true(s0.0) <= count_true(s1.0),
            qh < s1.3.len() && u == s1.3[qh],
            neighbor_settled(*self, u, dx, dy, s1.0, s1.1),
            forall|ax: int, ay: int|
                #[trigger] neighbor_settled(*self, u, ax, ay, s0.0, s0.1) ==> neighbor_settled(
                    *self,
                    u,
                    ax,
                    ay,
                    s1.0,
                    s1.1,
                ),
    {
        let ux = idx_x(*self, u as int);
        let uy = idx_y(*self, u as int);
        let w = self.spec_idx(ux + dx, uy + dy);
        lemma_count_true_le(s0.0);
        assert(s0.1[u as int] < s0.0.len());
        if self.in_bounds(ux + dx, uy + dy) {
            self.lemma_idx_in_range(ux + dx, uy + dy);
        }
        let fresh = self.in_bounds(ux + dx, uy + dy) && !(w == u) && !self.blocked@[w] && !s0.0[w];
        if fresh {
            lemma_visit_preserves(
                *self,
                start,
                s0.0,
                s0.1,
                s0.2,
                s0.3,
                s1.0,
                s1.1,
                s1.2,
                s1.3,
                qh,
                u,
                w as usize,
            );
        } else {
            lemma_visit_preserves(
                *self,
                start,
                s0.0,
                s0.1,
                s0.2,
                s0.3,
                s1.0,
                s1.1,
                s1.2,
                s1.3,
                qh,
                u,
                0,
            );
        }
        assert(s1.1[u as int] == s0.1[u as int]);
        // the aimed-at neighbor is settled now
        if self.in_bounds(ux + dx, uy + dy) && w != u && !self.blocked@[w] {
            if fresh {
                assert(s1.0[w] && s1.1[w] == s0.1[u as int] + 1);
            } else {
                assert(s0.0[w]);
                let k = choose|k: int| 0 <= k < s0.3.len() && s0.3[k] == w;
                assert(dist_of(s0.1, s0.3, k) <= dist_of(s0.1, s0.3, qh) + 1);
                assert(s0.1[w] <= s0.1[u as int] + 1);
            }
        }
        assert(neighbor_settled(*self, u, dx, dy, s1.0, s1.1));
        // previously settled neighbors stay settled
        assert forall|ax: int, ay: int| #[trigger] neighbor_settled(
            *self,
            u,
            ax,
            ay,
            s0.0,
            s0.1,
        ) implies neighbor_settled(*self, u, ax, ay, s1.0, s1.1) by {
            let w2 = self.spec_idx(ux + ax, uy + ay);
            if self.in_bounds(ux + ax, uy + ay) && w2 != u && !self.blocked@[w2] {
                assert(s0.0[w2]);
                if fresh {
                    assert(w2 != w ==> s1.1[w2] == s0.1[w2]);
                    assert(w2 == w ==> false);
                }
            }
        }
    }

    /// After the eight neighbor visits of `u`, every unblocked neighbor
    /// of `u` is visited with a distance label at most `dist[u] + 1`,
    /// so the closure of the expanded prefix extends over `u` itself.
    proof fn lemma_u_expanded(
        &self,
        start: usize,
        u: usize,
        qh: int,
        sf: (Seq<bool>, Seq<usize>, Seq<usize>, Seq<usize>),
    )
        requires
            self.wf(),
            bstate_inv(*self, start, sf, qh),
            0 <= qh < sf.3.len(),
            u == sf.3[qh],
            (u as int) < self.tiles@.len(),
            forall|dx: int, dy: int|
                -1 <= dx <= 1 && -1 <= dy <= 1 ==> #[trigger] neighbor_settled(
                    *self,
                    u,
                    dx,
                    dy,
                    sf.0,
                    sf.1,
                ),
        ensures
            bstate_inv(*self, start, sf, qh + 1),
    {
        let n = self.tiles@.len();
        assert forall|w: int|
            0 <= w < n && #[trigger] adjacent(*self, u as int, w) && !self.blocked@[w] implies sf.0[w]
            && sf.1[w] <= sf.1[u as int] + 1 by {
            let ux = idx_x(*self, u as int);
            let uy = idx_y(*self, u as int);
            let wx = idx_x(*self, w);
            let wy = idx_y(*self, w);
            vstd::arithmetic::div_mod::lemma_fundamental_div_mod(w, self.width as int);
            vstd::arithmetic::div_mod::lemma_fundamental_div_mod(u as int, self.width as int);
            assert(0 <= wx < self.width && 0 <= wy < self.height && 0 <= ux < self.width && 0 <= uy
                < self.height && (self.width as int) * wy == wy * (self.width as int) && (
            self.width as int) * uy == uy * (self.width as int)) by (nonlinear_arith)
                requires
                    0 < self.width,
                    0 < self.height,
                    0 <= w < self.width * self.height,
                    0 <= (u as int) < self.width * self.height,
                    wx == w % (self.width as int),
                    wy == w / (self.width as int),
                    ux == (u as int) % (self.width as int),
                    uy == (u as int) / (self.width as int),
                    w == (self.width as int) * wy + wx,
                    u as int == (self.width as int) * uy + ux,
            ;
            assert(w == self.spec_idx(wx, wy) && u as int == self.spec_idx(ux, uy));
            let dx = wx - ux;
            let dy = wy - uy;
            assert(-1 <= dx <= 1 && -1 <= dy <= 1);
            assert(neighbor_settled(*self, u, dx, dy, sf.0, sf.1));
            assert(self.in_bounds(ux + dx, uy + dy));
            assert(self.spec_idx(ux + dx, uy + dy) == w);
        }
        assert forall|k: int, x: int|
            0 <= k < qh + 1 && 0 <= x < sf.0.len() && #[trigger] adjacent(*self, sf.3[k] as int, x)
                && !self.blocked@[x] implies sf.0[x] && sf.1[x] <= sf.1[sf.3[k] as int] + 1 by {
            if k == qh {
                assert(sf.3[k] == u);
                assert(adjacent(*self, u as int, x));
            }
        }
    }
}

} // verus!
