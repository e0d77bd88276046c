use vstd::prelude::*;

use crate::geometry::Point;

verus! {

/// Width of the map, in tiles.
pub const SCREEN_WIDTH: i32 = 80;

/// Height of the map, in tiles.
pub const SCREEN_HEIGHT: i32 = 50;

/// Width of the camera's view, in tiles.
pub const DISPLAY_WIDTH: i32 = 40;

/// Height of the camera's view, in tiles.
pub const DISPLAY_HEIGHT: i32 = 25;

/// Number of tiles on the map.
pub const NUM_TILES: usize = 4000;

#[derive(Clone, Copy, Debug, PartialEq, Eq, Structural)]
pub enum TileType {
    Wall,
    Floor,
    Exit,
}

/// The tile `(x, y)` lies on the map.
pub open spec fn on_map(x: int, y: int) -> bool {
    0 <= x < SCREEN_WIDTH && 0 <= y < SCREEN_HEIGHT
}

/// Row-major index of `(x, y)`.
pub open spec fn index_of(x: int, y: int) -> int {
    y * SCREEN_WIDTH + x
}

/// Column of the tile with index `i`.
pub open spec fn column_of(i: int) -> int {
    i % (SCREEN_WIDTH as int)
}

/// Row of the tile with index `i`.
pub open spec fn row_of(i: int) -> int {
    i / (SCREEN_WIDTH as int)
}

/// Index of a tile on the map and its coordinates determine each other.
pub proof fn lemma_index_coordinates(x: int, y: int)
    requires
        on_map(x, y),
    ensures
        0 <= index_of(x, y) < NUM_TILES,
        column_of(index_of(x, y)) == x,
        row_of(index_of(x, y)) == y,
{
    assert(0 <= y * 80 <= 49 * 80) by (nonlinear_arith)
        requires
            0 <= y < 50,
    ;
    assert((y * 80 + x) % 80 == x && (y * 80 + x) / 80 == y) by (nonlinear_arith)
        requires
            0 <= x < 80,
            0 <= y,
    ;
}

/// Every index of the map names a tile on the map.
pub proof fn lemma_index_on_map(i: int)
    requires
        0 <= i < NUM_TILES,
    ensures
        on_map(column_of(i), row_of(i)),
        index_of(column_of(i), row_of(i)) == i,
{
    assert(0 <= i / 80 < 50 && i == (i / 80) * 80 + i % 80 && 0 <= i % 80 < 80) by (nonlinear_arith)
        requires
            0 <= i < 4000,
    ;
}

/// Row-major index of `(x, y)`, as `usize`.
pub fn map_idx(x: i32, y: i32) -> (i: usize)
    requires
        i32::MIN <= y * SCREEN_WIDTH <= i32::MAX,
        i32::MIN <= index_of(x as int, y as int) <= i32::MAX,
    ensures
        i == index_of(x as int, y as int) as usize,
{
    #[verifier::truncate]
    (((y * SCREEN_WIDTH) + x) as usize)
}

pub struct DungeonMap {
    pub tiles: Vec<TileType>,
}

impl DungeonMap {
    /// The map holds one tile for each position.
    pub open spec fn wf(&self) -> bool {
        self.tiles@.len() == NUM_TILES
    }

    /// The tile at `(x, y)`.
    pub open spec fn tile_at(&self, x: int, y: int) -> TileType {
        self.tiles@[index_of(x, y)]
    }

    /// Something may stand at `p`: it is on the map, and its tile is floor or an exit.
    pub open spec fn enterable(&self, p: Point) -> bool {
        on_map(p.x as int, p.y as int) && (self.tile_at(p.x as int, p.y as int) == TileType::Floor
            || self.tile_at(p.x as int, p.y as int) == TileType::Exit)
    }

    /// A map of floor everywhere.
    pub fn new() -> (m: DungeonMap)
        ensures
            m.wf(),
            forall|i: int| 0 <= i < NUM_TILES ==> m.tiles@[i] == TileType::Floor,
    {
        let mut tiles: Vec<TileType> = Vec::new();
        let mut i: usize = 0;
        while i < NUM_TILES
            invariant
                i <= NUM_TILES,
                tiles@.len() == i,
                forall|j: int| 0 <= j < i ==> tiles@[j] == TileType::Floor,
            decreases NUM_TILES - i,
        {
            tiles.push(TileType::Floor);
            i = i + 1;
        }
        DungeonMap { tiles }
    }

    /// Whether `p` lies on the map.
    pub fn in_bounds(&self, p: Point) -> (b: bool)
        ensures
            b == on_map(p.x as int, p.y as int),
    {
        p.x >= 0 && p.x < SCREEN_WIDTH && p.y >= 0 && p.y < SCREEN_HEIGHT
    }

    /// The index of `p`, or `None` when `p` is off the map.
    pub fn try_idx(&self, p: Point) -> (r: Option<usize>)
        ensures
            r matches Some(i) ==> on_map(p.x as int, p.y as int) && i == index_of(p.x as int, p.y as int),
            r is None <==> !on_map(p.x as int, p.y as int),
    {
        if !self.in_bounds(p) {
            None
        } else {
            Some(map_idx(p.x, p.y))
        }
    }

    /// Whether something may stand at `p`: it is on the map, and its tile is floor or an exit.
    pub fn can_enter_tile(&self, p: Point) -> (b: bool)
        requires
            self.wf(),
        ensures
            b == self.enterable(p),
    {
        if !self.in_bounds(p) {
            return false;
        }
        proof {
            lemma_index_coordinates(p.x as int, p.y as int);
        }
        let idx = map_idx(p.x, p.y);
        self.tiles[idx] == TileType::Floor || self.tiles[idx] == TileType::Exit
    }

    /// Row-major index of `p`; the index must not be negative.
    pub fn point2d_to_index(&self, p: Point) -> (i: usize)
        requires
            i32::MIN <= p.y * SCREEN_WIDTH <= i32::MAX,
            0 <= index_of(p.x as int, p.y as int) <= i32::MAX,
        ensures
            i == index_of(p.x as int, p.y as int),
    {
        ((p.y * SCREEN_WIDTH) + p.x) as usize
    }

    /// The point whose row-major index is `i`.
    pub fn index_to_point2d(&self, i: usize) -> (p: Point)
        requires
            i / (SCREEN_WIDTH as usize) <= i32::MAX,
        ensures
            p.x == column_of(i as int),
            p.y == row_of(i as int),
    {
        let w: usize = 80;
        let x: usize = i % w;
        let y: usize = i / w;
        Point::new(x as i32, y as i32)
    }
}

/// Turning a point of the map into an index and back gives the point again.
pub proof fn lemma_point_index_round_trip(p: Point)
    requires
        on_map(p.x as int, p.y as int),
    ensures
        column_of(index_of(p.x as int, p.y as int)) == p.x,
        row_of(index_of(p.x as int, p.y as int)) == p.y,
{
    lemma_index_coordinates(p.x as int, p.y as int);
}

} // verus!
