use vstd::prelude::*;
use vstd::arithmetic::div_mod::{lemma_fundamental_div_mod, lemma_mod_pos_bound};

verus! {

/// Number of tiles along each side of the plane at zoom `z`, that is `2^z`.
pub open spec fn side(z: nat) -> nat
    decreases z,
{
    if z == 0 {
        1
    } else {
        2 * side((z - 1) as nat)
    }
}

pub proof fn lemma_side_positive(z: nat)
    ensures
        side(z) >= 1,
    decreases z,
{
    if z > 0 {
        lemma_side_positive((z - 1) as nat);
    }
}

pub proof fn lemma_side_monotone(a: nat, b: nat)
    requires
        a <= b,
    ensures
        side(a) <= side(b),
    decreases b,
{
    if a < b {
        lemma_side_monotone(a, (b - 1) as nat);
        lemma_side_positive((b - 1) as nat);
    }
}

proof fn lemma_side_values()
    ensures
        side(31) == 0x8000_0000,
        side(62) == 0x4000_0000_0000_0000,
{
    reveal_with_fuel(side, 63);
}

/// `2^z` as a machine integer.
pub fn side_len(z: u32) -> (r: i64)
    requires
        z <= 62,
    ensures
        r == side(z as nat),
{
    let mut r: i64 = 1;
    let mut i: u32 = 0;
    while i < z
        invariant
            i <= z <= 62,
            r == side(i as nat),
        decreases z - i,
    {
        proof {
            lemma_side_values();
            lemma_side_monotone((i + 1) as nat, 62);
        }
        r = r * 2;
        i = i + 1;
    }
    r
}

/// An axis-aligned rectangle whose corners are dyadic fractions: each coordinate
/// stands for its value divided by `2^level`.
#[derive(Debug, Clone, Copy, PartialEq, Eq, Hash)]
pub struct DyadicRect {
    pub min_x: i64,
    pub min_y: i64,
    pub max_x: i64,
    pub max_y: i64,
    pub level: u32,
}

impl DyadicRect {
    /// A rectangle inside the unit square `[0,1] x [0,1]`, not turned inside out.
    pub open spec fn wf(&self) -> bool {
        &&& 0 <= self.min_x <= self.max_x <= side(self.level as nat)
        &&& 0 <= self.min_y <= self.max_y <= side(self.level as nat)
    }

    pub open spec fn full_spec() -> DyadicRect {
        DyadicRect { min_x: 0, min_y: 0, max_x: 1, max_y: 1, level: 0 }
    }

    /// The whole unit square: the sub-rectangle that crops nothing.
    pub fn full() -> (r: DyadicRect)
        ensures
            r == DyadicRect::full_spec(),
    {
        DyadicRect { min_x: 0, min_y: 0, max_x: 1, max_y: 1, level: 0 }
    }
}

/// A tile of the quad-subdivided plane: column `x`, row `y`, zoom level `z`.
#[derive(Debug, Clone, Copy, PartialEq, Eq, Hash)]
pub struct TileId {
    pub x: i32,
    pub y: i32,
    pub z: u8,
}

/// The sub-rectangle of a parent tile that a child with the given column and row
/// parities occupies, with `uv` (a sub-rectangle of the child) mapped into it.
pub open spec fn parent_uv(px: int, py: int, uv: DyadicRect) -> DyadicRect {
    let s = side(uv.level as nat) as int;
    DyadicRect {
        min_x: (px * s + uv.min_x) as i64,
        min_y: (py * s + uv.min_y) as i64,
        max_x: (px * s + uv.max_x) as i64,
        max_y: (py * s + uv.max_y) as i64,
        level: (uv.level + 1) as u32,
    }
}

/// `k` steps up the tile tree from `t`, each step carrying the sub-rectangle along.
pub open spec fn climb(t: TileId, uv: DyadicRect, k: nat) -> (TileId, DyadicRect)
    decreases k,
{
    if k == 0 {
        (t, uv)
    } else {
        let (a, auv) = climb(t, uv, (k - 1) as nat);
        a.zoom_out_spec(auv)
    }
}


/// Orders tiles by column, then by row.
pub open spec fn tile_before(a: TileId, b: TileId) -> bool {
    a.x < b.x || (a.x == b.x && a.y < b.y)
}

pub open spec fn min_i(a: int, b: int) -> int {
    if a <= b { a } else { b }
}

pub open spec fn max_i(a: int, b: int) -> int {
    if a <= b { b } else { a }
}

/// `t` belongs to the cover of the box spanned by the corner tiles `(x1, y1)` and
/// `(x2, y2)` at `zoom`: it lies in the box widened by `padding` on every side, and
/// on the plane.
pub open spec fn in_cover(t: TileId, x1: int, y1: int, x2: int, y2: int, zoom: nat, padding: int) -> bool {
    &&& t.z == zoom
    &&& min_i(x1, x2) - padding <= t.x <= max_i(x1, x2) + padding
    &&& min_i(y1, y2) - padding <= t.y <= max_i(y1, y2) + padding
    &&& t.in_range()
}

/// The point `(px / d, py / d)` lies in the half-open rectangle `r`.
pub open spec fn covers(r: DyadicRect, px: int, py: int, d: int) -> bool {
    let s = side(r.level as nat) as int;
    &&& r.min_x * d <= px * s < r.max_x * d
    &&& r.min_y * d <= py * s < r.max_y * d
}

proof fn lemma_floor_unique(a: int, b: int, p: int, d: int)
    requires
        d > 0,
        a * d <= p < (a + 1) * d,
        b * d <= p < (b + 1) * d,
    ensures
        a == b,
{
    if a < b {
        assert((a + 1) * d <= b * d) by (nonlinear_arith)
            requires a + 1 <= b, d > 0;
    }
    if b < a {
        assert((b + 1) * d <= a * d) by (nonlinear_arith)
            requires b + 1 <= a, d > 0;
    }
}

proof fn lemma_floor_exists(p: int, d: int, s: int) -> (x: int)
    requires
        d > 0,
        s > 0,
        0 <= p < d,
    ensures
        0 <= x < s,
        x * d <= p * s < (x + 1) * d,
{
    let ps = p * s;
    assert(0 <= ps < d * s) by (nonlinear_arith)
        requires ps == p * s, 0 <= p < d, s > 0;
    lemma_fundamental_div_mod(ps, d);
    lemma_mod_pos_bound(ps, d);
    let x = ps / d;
    assert(x * d <= ps < (x + 1) * d) by (nonlinear_arith)
        requires ps == d * x + ps % d, 0 <= ps % d < d;
    assert(0 <= x < s) by (nonlinear_arith)
        requires x * d <= ps, ps < (x + 1) * d, 0 <= ps < d * s, d > 0;
    x
}

/// At zoom `z` every tile's square has side `1 / 2^z`, and the squares of the tiles
/// on the plane cover the unit square with no gaps and no overlaps: each point
/// `(px / d, py / d)` of `[0, 1) x [0, 1)` lies in the half-open square of exactly one
/// of them.
pub proof fn lemma_tiles_partition(z: nat, px: int, py: int, d: int)
    requires
        z <= 31,
        d > 0,
        0 <= px < d,
        0 <= py < d,
    ensures
        forall|t: TileId| t.z == z ==> {
            let b = #[trigger] t.bounds();
            &&& b.level == z
            &&& b.max_x - b.min_x == 1
            &&& b.max_y - b.min_y == 1
        },
        exists|t: TileId| t.z == z && t.in_range() && covers(#[trigger] t.bounds(), px, py, d),
        forall|a: TileId, b: TileId|
            a.z == z && b.z == z && a.in_range() && b.in_range() && covers(#[trigger] a.bounds(), px, py, d)
                && covers(#[trigger] b.bounds(), px, py, d) ==> a == b,
{
    let s = side(z) as int;
    lemma_side_positive(z);
    lemma_side_values();
    lemma_side_monotone(z, 31);
    let x = lemma_floor_exists(px, d, s);
    let y = lemma_floor_exists(py, d, s);
    let t = TileId { x: x as i32, y: y as i32, z: z as u8 };
    assert(t.in_range() && covers(t.bounds(), px, py, d));
    assert forall|a: TileId, b: TileId|
        a.z == z && b.z == z && a.in_range() && b.in_range() && covers(#[trigger] a.bounds(), px, py, d)
            && covers(#[trigger] b.bounds(), px, py, d) implies a == b by {
        lemma_floor_unique(a.x as int, b.x as int, px * s, d);
        lemma_floor_unique(a.y as int, b.y as int, py * s, d);
    }
}

/// Walking `k` levels up from a tile, starting from the whole tile as sub-rectangle,
/// ends at the ancestor at zoom `z - k`, on the plane, and the sub-rectangle carried
/// along is the child's own square inside it: the cell `(x mod 2^k, y mod 2^k)` of
/// side `1 / 2^k`. Cropping the ancestor's square `[a.x, a.x + 1] / 2^(z - k)` to it
/// gives `[a.x * 2^k + uv.min_x, a.x * 2^k + uv.max_x] / 2^z`, the child's square.
pub proof fn lemma_climb_crop(t: TileId, k: nat)
    requires
        t.in_range(),
        k <= t.z,
        k <= 62,
    ensures
        ({
            let (a, uv) = climb(t, DyadicRect::full_spec(), k);
            &&& a.z == t.z - k
            &&& a.in_range()
            &&& uv.wf()
            &&& uv.level == k
            &&& a.x * side(k) + uv.min_x == t.x
            &&& a.y * side(k) + uv.min_y == t.y
            &&& uv.max_x == uv.min_x + 1
            &&& uv.max_y == uv.min_y + 1
        }),
    decreases k,
{
    if k > 0 {
        let k1 = (k - 1) as nat;
        lemma_climb_crop(t, k1);
        let (a1, uv1) = climb(t, DyadicRect::full_spec(), k1);
        let s1 = side(k1) as int;
        lemma_side_values();
        lemma_side_monotone(k, 62);
        lemma_side_positive(k1);
        assert(side(a1.z as nat) == 2 * side((a1.z - 1) as nat));
        let (qx, rx) = (a1.x as int / 2, a1.x as int % 2);
        let (qy, ry) = (a1.y as int / 2, a1.y as int % 2);
        assert(rx * s1 == 0 || rx * s1 == s1) by (nonlinear_arith)
            requires rx == 0 || rx == 1;
        assert(ry * s1 == 0 || ry * s1 == s1) by (nonlinear_arith)
            requires ry == 0 || ry == 1;
        assert(qx * (2 * s1) + rx * s1 == a1.x * s1) by (nonlinear_arith)
            requires a1.x == 2 * qx + rx;
        assert(qy * (2 * s1) + ry * s1 == a1.y * s1) by (nonlinear_arith)
            requires a1.y == 2 * qy + ry;
    }
}

impl TileId {
    /// The tile lies on the plane: `0 <= x, y < 2^z`.
    pub open spec fn in_range(&self) -> bool {
        &&& 0 <= self.x < side(self.z as nat)
        &&& 0 <= self.y < side(self.z as nat)
    }

    /// The tile's square on the normalized plane: from `(x, y) / 2^z` to `(x + 1, y + 1) / 2^z`.
    pub open spec fn bounds(&self) -> DyadicRect {
        DyadicRect {
            min_x: self.x as i64,
            min_y: self.y as i64,
            max_x: (self.x + 1) as i64,
            max_y: (self.y + 1) as i64,
            level: self.z as u32,
        }
    }

    /// The parent tile, and where in it the sub-rectangle `uv` of this tile lies.
    pub open spec fn zoom_out_spec(&self, uv: DyadicRect) -> (TileId, DyadicRect) {
        (
            TileId { x: (self.x as int / 2) as i32, y: (self.y as int / 2) as i32, z: (self.z - 1) as u8 },
            parent_uv(self.x as int % 2, self.y as int % 2, uv),
        )
    }

    /// Every tile at `zoom` in the box spanned by the corner tiles `(x1, y1)` and
    /// `(x2, y2)`, widened by `padding` on each side; tiles off the plane are left
    /// out. The tiles come column by column, each column from top to bottom.
    pub fn from_bounds(x1: i32, y1: i32, x2: i32, y2: i32, zoom: u8, padding: i32) -> (r: Vec<TileId>)
        ensures
            forall|t: TileId|
                r@.contains(t) <==> in_cover(t, x1 as int, y1 as int, x2 as int, y2 as int, zoom as nat, padding as int),
            forall|i: int, j: int| 0 <= i < j < r@.len() ==> tile_before(r@[i], r@[j]),
    {
        let cap: i64 = if zoom >= 31 {
            proof {
                lemma_side_values();
                lemma_side_monotone(31, zoom as nat);
            }
            0x7fff_ffff
        } else {
            proof {
                lemma_side_values();
                lemma_side_monotone(zoom as nat, 31);
                lemma_side_positive(zoom as nat);
            }
            side_len(zoom as u32) - 1
        };
        let lo_x0: i64 = (if x1 <= x2 { x1 } else { x2 }) as i64 - padding as i64;
        let hi_x0: i64 = (if x1 <= x2 { x2 } else { x1 }) as i64 + padding as i64;
        let lo_y0: i64 = (if y1 <= y2 { y1 } else { y2 }) as i64 - padding as i64;
        let hi_y0: i64 = (if y1 <= y2 { y2 } else { y1 }) as i64 + padding as i64;
        let lo_x: i64 = if lo_x0 < 0 { 0 } else { lo_x0 };
        let hi_x: i64 = if hi_x0 > cap { cap } else { hi_x0 };
        let lo_y: i64 = if lo_y0 < 0 { 0 } else { lo_y0 };
        let hi_y: i64 = if hi_y0 > cap { cap } else { hi_y0 };
        let ghost cover = |t: TileId| in_cover(t, x1 as int, y1 as int, x2 as int, y2 as int, zoom as nat, padding as int);
        assert forall|t: TileId| #[trigger] cover(t) <==> (t.z == zoom && lo_x <= t.x <= hi_x && lo_y <= t.y <= hi_y) by {
            if zoom >= 31 {
                lemma_side_values();
                lemma_side_monotone(31, zoom as nat);
            }
        }
        let mut tiles: Vec<TileId> = Vec::new();
        let mut x: i64 = lo_x;
        while x <= hi_x
            invariant
                0 <= lo_x <= x,
                x <= hi_x + 1 || x == lo_x,
                hi_x <= 0x7fff_ffff,
                lo_y >= 0,
                hi_y <= 0x7fff_ffff,
                forall|t: TileId| #[trigger] cover(t) <==> (t.z == zoom && lo_x <= t.x <= hi_x && lo_y <= t.y <= hi_y),
                forall|t: TileId| tiles@.contains(t) <==> (cover(t) && t.x < x),
                forall|i: int, j: int| 0 <= i < j < tiles@.len() ==> tile_before(tiles@[i], tiles@[j]),
            decreases hi_x + 1 - x,
        {
            let mut y: i64 = lo_y;
            while y <= hi_y
                invariant
                    0 <= lo_x <= x <= hi_x <= 0x7fff_ffff,
                    0 <= lo_y <= y,
                    y <= hi_y + 1 || y == lo_y,
                    hi_y <= 0x7fff_ffff,
                    forall|t: TileId| #[trigger] cover(t) <==> (t.z == zoom && lo_x <= t.x <= hi_x && lo_y <= t.y <= hi_y),
                    forall|t: TileId| tiles@.contains(t) <==> (cover(t) && (t.x < x || (t.x == x && t.y < y))),
                    forall|i: int, j: int| 0 <= i < j < tiles@.len() ==> tile_before(tiles@[i], tiles@[j]),
                decreases hi_y + 1 - y,
            {
                let t = TileId { x: x as i32, y: y as i32, z: zoom };
                assert forall|i: int| 0 <= i < tiles@.len() implies tile_before(tiles@[i], t) by {
                    assert(tiles@.contains(tiles@[i]));
                }
                let ghost before = tiles@;
                tiles.push(t);
                assert forall|u: TileId| tiles@.contains(u) <==> (cover(u) && (u.x < x || (u.x == x && u.y < y + 1))) by {
                    if tiles@.contains(u) {
                        let k = choose|k: int| 0 <= k < tiles@.len() && tiles@[k] == u;
                        if k < before.len() {
                            assert(before.contains(u));
                        }
                    }
                    if cover(u) && (u.x < x || (u.x == x && u.y < y + 1)) {
                        if u.x == x && u.y == y {
                            assert(tiles@[before.len() as int] == u);
                        } else {
                            assert(before.contains(u));
                            let k = choose|k: int| 0 <= k < before.len() && before[k] == u;
                            assert(tiles@[k] == u);
                        }
                    }
                }
                y = y + 1;
            }
            assert forall|u: TileId| tiles@.contains(u) <==> (cover(u) && u.x < x + 1) by {}
            x = x + 1;
        }
        tiles
    }

    /// The ancestors used as a stand-in while this tile is not loaded: the tiles one,
    /// two, ... levels up, down to zoom 1, each with the sub-rectangle of it that this
    /// tile covers.
    pub fn fallback_chain(&self) -> (r: Vec<(TileId, DyadicRect)>)
        requires
            self.in_range(),
            self.z <= 62,
        ensures
            r@.len() == if self.z == 0 { 0 } else { self.z - 1 },
            forall|i: int| 0 <= i < r@.len() ==> r@[i] == climb(*self, DyadicRect::full_spec(), (i + 1) as nat),
    {
        let mut chain: Vec<(TileId, DyadicRect)> = Vec::new();
        if self.z == 0 {
            return chain;
        }
        proof {
            lemma_climb_crop(*self, 1);
        }
        let mut cur = self.zoom_out_with_uv(DyadicRect::full());
        assert(climb(*self, DyadicRect::full_spec(), 0) == (*self, DyadicRect::full_spec()));
        let ghost mut k: nat = 1;
        while cur.0.z > 0
            invariant
                1 <= k <= self.z <= 62,
                self.in_range(),
                cur == climb(*self, DyadicRect::full_spec(), k),
                cur.0.z == self.z - k,
                cur.0.in_range(),
                cur.1.wf(),
                cur.1.level == k,
                chain@.len() == k - 1,
                forall|i: int| 0 <= i < chain@.len() ==> chain@[i] == climb(*self, DyadicRect::full_spec(), (i + 1) as nat),
            decreases cur.0.z,
        {
            chain.push(cur);
            proof {
                lemma_climb_crop(*self, k + 1);
            }
            cur = cur.0.zoom_out_with_uv(cur.1);
            proof {
                k = k + 1;
            }
        }
        chain
    }

    /// The tile's square on the normalized plane, as dyadic fractions of level `z`.
    pub fn bounds_normalized(&self) -> (r: DyadicRect)
        ensures
            r == self.bounds(),
    {
        DyadicRect {
            min_x: self.x as i64,
            min_y: self.y as i64,
            max_x: self.x as i64 + 1,
            max_y: self.y as i64 + 1,
            level: self.z as u32,
        }
    }

    /// The parent tile at zoom `z - 1`, and the sub-rectangle of the parent that
    /// `uv` (a sub-rectangle of this tile) covers.
    pub fn zoom_out_with_uv(&self, uv: DyadicRect) -> (r: (TileId, DyadicRect))
        requires
            self.in_range(),
            self.z > 0,
            uv.wf(),
            uv.level < 62,
        ensures
            r == self.zoom_out_spec(uv),
            r.0.in_range(),
            r.1.wf(),
    {
        let s = side_len(uv.level);
        let ox: i64 = if self.x % 2 == 0 { 0 } else { s };
        let oy: i64 = if self.y % 2 == 0 { 0 } else { s };
        proof {
            lemma_side_values();
            lemma_side_monotone((uv.level + 1) as nat, 62);
            assert(side((self.z - 1) as nat) * 2 == side(self.z as nat));
        }
        let parent = TileId { x: self.x / 2, y: self.y / 2, z: self.z - 1 };
        proof {
            let sl = side(uv.level as nat) as int;
            let (qx, qy) = (self.x as int % 2, self.y as int % 2);
            if qx == 0 { assert(qx * sl == 0); } else { assert(qx == 1); assert(qx * sl == sl); }
            if qy == 0 { assert(qy * sl == 0); } else { assert(qy == 1); assert(qy * sl == sl); }
        }
        assert(parent == self.zoom_out_spec(uv).0);
        let r = DyadicRect {
            min_x: ox + uv.min_x,
            min_y: oy + uv.min_y,
            max_x: ox + uv.max_x,
            max_y: oy + uv.max_y,
            level: uv.level + 1,
        };
        (parent, r)
    }
}

} // verus!
