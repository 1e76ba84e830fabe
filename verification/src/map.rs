//! The spatial map model: a tile grid with blocking flags, revealed and
//! visible flags, a per-tile entity occupancy cache rebuilt every pass,
//! and the room list handed over by the external dungeon generator.

use vstd::prelude::*;
use crate::components::{Entity, Point};

verus! {

/// The static geometry of one tile.
#[derive(Clone, Copy, PartialEq, Eq, Structural, Debug)]
pub enum TileType {
    Wall,
    Floor,
    DownStairs,
}

/// A rectangular room produced by the external generator.
#[derive(Clone, Copy, PartialEq, Eq, Structural, Debug)]
pub struct Rect {
    pub x1: i32,
    pub y1: i32,
    pub x2: i32,
    pub y2: i32,
}

impl Rect {
    pub fn new(x: i32, y: i32, w: i32, h: i32) -> (r: Rect)
        requires
            0 <= x,
            0 <= y,
            0 <= w,
            0 <= h,
            x + w <= i32::MAX,
            y + h <= i32::MAX,
        ensures
            r.x1 == x && r.y1 == y && r.x2 == x + w && r.y2 == y + h,
    {
        Rect { x1: x, y1: y, x2: x + w, y2: y + h }
    }

    /// Whether the two rectangles overlap (touching edges count).
    pub fn intersect(&self, other: &Rect) -> (r: bool)
        ensures
            r == (self.x1 <= other.x2 && self.x2 >= other.x1 && self.y1 <= other.y2 && self.y2
                >= other.y1),
    {
        self.x1 <= other.x2 && self.x2 >= other.x1 && self.y1 <= other.y2 && self.y2 >= other.y1
    }

    /// The room's middle tile.
    pub fn center(&self) -> (c: (i32, i32))
        requires
            0 <= self.x1,
            0 <= self.y1,
            self.x1 + self.x2 <= i32::MAX,
            self.y1 + self.y2 <= i32::MAX,
            self.x1 <= self.x2,
            self.y1 <= self.y2,
        ensures
            c.0 == (self.x1 + self.x2) / 2,
            c.1 == (self.y1 + self.y2) / 2,
    {
        ((self.x1 + self.x2) / 2, (self.y1 + self.y2) / 2)
    }
}

/// The map: per-tile arrays all indexed by `xy_idx`, plus the room list.
/// `blocked` and `tile_content` are rebuilt every pass by the map indexing
/// system; `revealed_tiles` is monotonic; `visible_tiles` is refreshed by
/// the visibility system whenever the player's viewshed is recomputed.
pub struct GameMap {
    pub width: i32,
    pub height: i32,
    pub tiles: Vec<TileType>,
    pub blocked: Vec<bool>,
    pub revealed_tiles: Vec<bool>,
    pub visible_tiles: Vec<bool>,
    pub tile_content: Vec<Vec<Entity>>,
    pub rooms: Vec<Rect>,
}

impl GameMap {
    /// Well-formedness: positive extent and every per-tile array exactly
    /// `width * height` long.
    pub open spec fn wf(&self) -> bool {
        &&& 0 < self.width
        &&& 0 < self.height
        &&& self.tiles@.len() == self.width * self.height
        &&& self.blocked@.len() == self.tiles@.len()
        &&& self.revealed_tiles@.len() == self.tiles@.len()
        &&& self.visible_tiles@.len() == self.tiles@.len()
        &&& self.tile_content@.len() == self.tiles@.len()
    }

    /// The coordinate lies on the map.
    pub open spec fn in_bounds(&self, x: int, y: int) -> bool {
        0 <= x < self.width && 0 <= y < self.height
    }

    /// The single addressing scheme for all per-tile arrays.
    pub open spec fn spec_idx(&self, x: int, y: int) -> int {
        y * self.width + x
    }

    pub proof fn lemma_idx_in_range(&self, x: int, y: int)
        requires
            self.wf(),
            self.in_bounds(x, y),
        ensures
            0 <= self.spec_idx(x, y) < self.tiles@.len(),
    {
        assert(0 <= y * self.width + x < self.width * self.height) by (nonlinear_arith)
            requires
                0 <= x < self.width,
                0 <= y < self.height,
        ;
    }

    /// Convert a coordinate into the flat index of the per-tile arrays.
    pub fn xy_idx(&self, x: i32, y: i32) -> (idx: usize)
        requires
            self.wf(),
            self.in_bounds(x as int, y as int),
        ensures
            idx == self.spec_idx(x as int, y as int),
            idx < self.tiles@.len(),
    {
        let n = self.tiles.len();
        proof {
            self.lemma_idx_in_range(x as int, y as int);
        }
        (y as usize) * (self.width as usize) + (x as usize)
    }

    /// Recover the coordinate a flat index addresses.
    pub fn idx_point(&self, idx: usize) -> (p: Point)
        requires
            self.wf(),
            idx < self.tiles@.len(),
        ensures
            self.in_bounds(p.x as int, p.y as int),
            self.spec_idx(p.x as int, p.y as int) == idx,
    {
        let w = self.width as usize;
        let x = idx % w;
        let y = idx / w;
        proof {
            vstd::arithmetic::div_mod::lemma_fundamental_div_mod(idx as int, w as int);
            assert(idx == w * (idx / w) + idx % w);
            let wi = w as int;
            let ii = idx as int;
            assert(ii / wi < self.height && wi * (ii / wi) == (ii / wi) * wi) by (nonlinear_arith)
                requires
                    0 < wi,
                    ii < self.width * self.height,
                    wi == self.width,
                    ii == wi * (ii / wi) + ii % wi,
                    0 <= ii % wi < wi,
            ;
            assert(x < w as int && y < self.height);
        }
        Point { x: x as i32, y: y as i32 }
    }

    /// Whether the tile at `idx` blocks line of sight.
    pub open spec fn spec_opaque(&self, idx: int) -> bool {
        self.tiles@[idx] is Wall
    }

    /// Report whether a tile blocks line of sight.
    pub fn is_opaque(&self, idx: usize) -> (r: bool)
        requires
            self.wf(),
            idx < self.tiles@.len(),
        ensures
            r == self.spec_opaque(idx as int),
    {
        match self.tiles[idx] {
            TileType::Wall => true,
            _ => false,
        }
    }

    /// A fresh map over generator output: nothing revealed or visible,
    /// nothing blocked yet, the occupancy cache empty but correctly sized.
    pub fn new(width: i32, height: i32, tiles: Vec<TileType>, rooms: Vec<Rect>) -> (m: GameMap)
        requires
            0 < width,
            0 < height,
            tiles@.len() == width * height,
        ensures
            m.wf(),
            m.width == width,
            m.height == height,
            m.tiles == tiles,
            m.rooms == rooms,
            forall|i: int| 0 <= i < m.blocked@.len() ==> !m.blocked@[i],
            forall|i: int| 0 <= i < m.revealed_tiles@.len() ==> !m.revealed_tiles@[i],
            forall|i: int| 0 <= i < m.visible_tiles@.len() ==> !m.visible_tiles@[i],
            forall|i: int| 0 <= i < m.tile_content@.len() ==> m.tile_content@[i]@.len() == 0,
    {
        let n = tiles.len();
        let mut content: Vec<Vec<Entity>> = Vec::new();
        let mut i: usize = 0;
        while i < n
            invariant
                i <= n,
                content@.len() == i,
                forall|j: int| 0 <= j < i ==> content@[j]@.len() == 0,
            decreases n - i,
        {
            content.push(Vec::new());
            i += 1;
        }
        GameMap {
            width,
            height,
            tiles,
            blocked: vec![false; n],
            revealed_tiles: vec![false; n],
            visible_tiles: vec![false; n],
            tile_content: content,
            rooms,
        }
    }
}

} // verus!
