//! Field of view: a tile is visible from an origin when it lies within
//! the sight radius and the straight walk between the two tiles crosses
//! no opaque tile. The walk steps one tile at a time, diagonally while it
//! can, which is the sweep the visibility system and the area-of-effect
//! targeting both use.

use vstd::prelude::*;
use crate::components::Point;
use crate::map::GameMap;

verus! {

/// -1, 0 or 1: the direction one axis moves when walking toward a target.
pub open spec fn sign(d: int) -> int {
    if d > 0 {
        1
    } else if d < 0 {
        -1
    } else {
        0
    }
}

/// Chebyshev distance: how many 8-connected steps the walk takes.
pub open spec fn cheb_dist(a: Point, b: Point) -> int {
    vstd::math::max(vstd::math::abs(b.x - a.x) as int, vstd::math::abs(b.y - a.y) as int)
}

/// Squared Euclidean distance between two tiles.
pub open spec fn dist2(a: Point, b: Point) -> int {
    (b.x - a.x) * (b.x - a.x) + (b.y - a.y) * (b.y - a.y)
}

/// The next tile of the straight walk from `from` toward `to`.
pub open spec fn step_toward(from: Point, to: Point) -> Point {
    Point {
        x: (from.x + sign(to.x - from.x)) as i32,
        y: (from.y + sign(to.y - from.y)) as i32,
    }
}

/// Line of sight: every tile strictly between `from` and `to` on the
/// straight walk is transparent. The endpoints' own tiles do not block,
/// so a wall itself can be seen.
pub open spec fn los_clear(m: GameMap, from: Point, to: Point) -> bool
    decreases cheb_dist(from, to),
{
    if cheb_dist(from, to) <= 1 {
        true
    } else {
        let n = step_toward(from, to);
        !m.spec_opaque(m.spec_idx(n.x as int, n.y as int)) && los_clear(m, n, to)
    }
}

/// Membership in the field of view of `origin` at radius `range`.
pub open spec fn fov_contains(m: GameMap, origin: Point, range: int, p: Point) -> bool {
    &&& m.in_bounds(p.x as int, p.y as int)
    &&& dist2(origin, p) <= range * range
    &&& los_clear(m, origin, p)
}

/// Walking one step toward a distinct target lowers the Chebyshev
/// distance by exactly one and stays inside the bounding box of the two
/// endpoints.
proof fn lemma_step_toward(from: Point, to: Point)
    requires
        cheb_dist(from, to) >= 1,
    ensures
        cheb_dist(step_toward(from, to), to) == cheb_dist(from, to) - 1,
        vstd::math::min(from.x as int, to.x as int) <= step_toward(from, to).x
            <= vstd::math::max(from.x as int, to.x as int),
        vstd::math::min(from.y as int, to.y as int) <= step_toward(from, to).y
            <= vstd::math::max(from.y as int, to.y as int),
{
}

/// Line of sight reads only the static geometry: two maps that agree
/// on extent and tiles agree on it.
proof fn lemma_los_agree(m1: GameMap, m2: GameMap, from: Point, to: Point)
    requires
        m1.width == m2.width,
        m1.height == m2.height,
        m1.tiles@ == m2.tiles@,
    ensures
        los_clear(m1, from, to) == los_clear(m2, from, to),
    decreases cheb_dist(from, to),
{
    if cheb_dist(from, to) > 1 {
        lemma_los_agree(m1, m2, step_toward(from, to), to);
    }
}

/// Field-of-view membership reads only the static geometry.
pub proof fn lemma_fov_agree(m1: GameMap, m2: GameMap, origin: Point, range: int)
    requires
        m1.width == m2.width,
        m1.height == m2.height,
        m1.tiles@ == m2.tiles@,
    ensures
        forall|p: Point|
            #[trigger] fov_contains(m1, origin, range, p) == fov_contains(m2, origin, range, p),
{
    assert forall|p: Point| #[trigger] fov_contains(m1, origin, range, p) == fov_contains(
        m2,
        origin,
        range,
        p,
    ) by {
        lemma_los_agree(m1, m2, origin, p);
    }
}

/// Decide line of sight by walking the line.
pub fn line_clear(m: &GameMap, from: Point, to: Point) -> (r: bool)
    requires
        m.wf(),
        m.in_bounds(from.x as int, from.y as int),
        m.in_bounds(to.x as int, to.y as int),
    ensures
        r == los_clear(*m, from, to),
{
    let mut cur = from;
    loop
        invariant
            m.wf(),
            m.in_bounds(cur.x as int, cur.y as int),
            m.in_bounds(to.x as int, to.y as int),
            los_clear(*m, from, to) == los_clear(*m, cur, to),
        ensures
            los_clear(*m, from, to) == los_clear(*m, cur, to),
            cheb_dist(cur, to) <= 1,
        decreases cheb_dist(cur, to),
    {
        let dx = to.x - cur.x;
        let dy = to.y - cur.y;
        let adx = if dx < 0 { -dx } else { dx };
        let ady = if dy < 0 { -dy } else { dy };
        let cheb = if adx > ady { adx } else { ady };
        if cheb <= 1 {
            break ;
        }
        let sx: i32 = if dx > 0 { 1 } else if dx < 0 { -1 } else { 0 };
        let sy: i32 = if dy > 0 { 1 } else if dy < 0 { -1 } else { 0 };
        let next = Point { x: cur.x + sx, y: cur.y + sy };
        proof {
            lemma_step_toward(cur, to);
            assert(next == step_toward(cur, to));
        }
        let idx = m.xy_idx(next.x, next.y);
        if m.is_opaque(idx) {
            proof {
                assert(!los_clear(*m, cur, to));
            }
            return false;
        }
        cur = next;
    }
    true
}

/// A tile within squared distance `r * r` of `a` differs from it by at
/// most `r` on each axis.
proof fn lemma_dist2_bounds(a: Point, b: Point, r: int)
    requires
        r >= 0,
        dist2(a, b) <= r * r,
    ensures
        vstd::math::abs(b.x - a.x) <= r,
        vstd::math::abs(b.y - a.y) <= r,
{
    let dx = b.x - a.x;
    let dy = b.y - a.y;
    assert((dx > r || dx < -r || dy > r || dy < -r) ==> dx * dx + dy * dy > r * r)
        by (nonlinear_arith)
        requires
            r >= 0,
    ;
}

/// Compute the set of tiles visible from `origin` out to `range`,
/// clipped to the map bounds. The result lists each visible tile exactly
/// once, scanning rows upward and columns leftward to rightward.
#[verifier::loop_isolation(false)]
pub fn field_of_view(m: &GameMap, origin: Point, range: i32) -> (v: Vec<Point>)
    requires
        m.wf(),
        m.in_bounds(origin.x as int, origin.y as int),
        range >= 0,
    ensures
        forall|p: Point| v@.contains(p) <==> fov_contains(*m, origin, range as int, p),
        forall|i: int, j: int| 0 <= i < j < v@.len() ==> v@[i] != v@[j],
{
    let mut v: Vec<Point> = Vec::new();
    let y_lo: i32 = if origin.y >= range { origin.y - range } else { 0 };
    let x_lo: i32 = if origin.x >= range { origin.x - range } else { 0 };
    let y_hi: i64 = origin.y as i64 + range as i64;
    let x_hi: i64 = origin.x as i64 + range as i64;
    let mut y = y_lo;
    proof {
        assert forall|p: Point| #[trigger]
            fov_contains(*m, origin, range as int, p) implies p.y >= y_lo && p.x >= x_lo && p.y
            <= y_hi && p.x <= x_hi by {
            lemma_dist2_bounds(origin, p, range as int);
        }
    }
    while y < m.height && (y as i64) <= y_hi
        invariant
            y_lo <= y,
            y <= m.height || y == y_lo,
            y <= y_hi + 1,
            forall|p: Point| #[trigger]
                v@.contains(p) <==> (fov_contains(*m, origin, range as int, p) && p.y < y),
            forall|i: int, j: int| 0 <= i < j < v@.len() ==> v@[i] != v@[j],
        decreases m.height + y_hi + 1 - y,
    {
        let mut x = x_lo;
        while x < m.width && (x as i64) <= x_hi
            invariant
                x_lo <= x,
                x <= m.width || x == x_lo,
                x <= x_hi + 1,
                0 <= y < m.height,
                y <= y_hi,
                forall|p: Point| #[trigger]
                    v@.contains(p) <==> (fov_contains(*m, origin, range as int, p) && (p.y < y || (
                    p.y == y && p.x < x))),
                forall|i: int, j: int| 0 <= i < j < v@.len() ==> v@[i] != v@[j],
            decreases m.width + x_hi + 1 - x,
        {
            let p = Point { x, y };
            let dx = (p.x as i128) - (origin.x as i128);
            let dy = (p.y as i128) - (origin.y as i128);
            proof {
                assert(dx * dx <= 0x2_0000_0000_0000_0000 && dy * dy <= 0x2_0000_0000_0000_0000
                    && 0 <= dx * dx && 0 <= dy * dy && (range as i128) * (range as i128)
                    <= 0x2_0000_0000_0000_0000) by (nonlinear_arith)
                    requires
                        -0x1_0000_0000 <= dx <= 0x1_0000_0000,
                        -0x1_0000_0000 <= dy <= 0x1_0000_0000,
                        0 <= (range as i128) <= 0x1_0000_0000,
                ;
            }
            let r2 = (range as i128) * (range as i128);
            proof {
                assert(dist2(origin, p) == dx * dx + dy * dy);
                assert((range as int) * (range as int) == r2);
            }
            if dx * dx + dy * dy <= r2 {
                if line_clear(m, origin, p) {
                    let ghost old_v = v@;
                    proof {
                        assert(fov_contains(*m, origin, range as int, p));
                        assert(!old_v.contains(p));
                    }
                    v.push(p);
                    proof {
                        assert forall|q: Point| old_v.contains(q) implies #[trigger] v@.contains(
                            q,
                        ) by {
                            let i = choose|i: int| 0 <= i < old_v.len() && old_v[i] == q;
                            assert(v@[i] == q);
                        }
                        assert(v@[v@.len() - 1] == p);
                        assert(v@.contains(p));
                        assert forall|q: Point| #[trigger] v@.contains(q) implies (old_v.contains(
                            q,
                        ) || q == p) by {
                            let i = choose|i: int| 0 <= i < v@.len() && v@[i] == q;
                            if i < old_v.len() {
                                assert(old_v[i] == q);
                                assert(old_v.contains(q));
                            }
                        }
                        assert forall|i: int, j: int| 0 <= i < j < v@.len() implies v@[i]
                            != v@[j] by {
                            if j == v@.len() - 1 {
                                assert(old_v[i] == v@[i]);
                                assert(old_v.contains(v@[i]));
                            }
                        }
                    }
                }
            }
            x += 1;
        }
        y += 1;
    }
    v
}

} // verus!
