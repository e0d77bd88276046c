use vstd::prelude::*;

use super::{
    corridors_are_floor, drawn_room, lemma_drawn_center, lemma_rooms_layout, lemma_sort_members,
    on_corridor, on_horizontal_run, on_vertical_run, room_digs, sort_by_center_x, MapBuilder,
};
use crate::geometry::Rect;
use crate::map::{column_of, index_of, lemma_index_coordinates, on_map, row_of, TileType, NUM_TILES};

verus! {

/// Tiles `i` and `j` share an edge.
pub open spec fn neighbours(i: int, j: int) -> bool {
    (row_of(i) == row_of(j) && (column_of(i) - column_of(j) == 1 || column_of(j) - column_of(i)
        == 1)) || (column_of(i) == column_of(j) && (row_of(i) - row_of(j) == 1 || row_of(j)
        - row_of(i) == 1))
}

/// `path` walks over floor tiles of the map, each a neighbour of the one before.
pub open spec fn is_floor_walk(tiles: Seq<TileType>, path: Seq<int>) -> bool {
    &&& path.len() >= 1
    &&& forall|k: int|
        0 <= k < path.len() ==> 0 <= #[trigger] path[k] < NUM_TILES && tiles[path[k]]
            == TileType::Floor
    &&& forall|k: int| 0 <= k < path.len() - 1 ==> #[trigger] neighbours(path[k], path[k + 1])
}

/// One can walk over floor from tile `a` to tile `b`.
pub open spec fn walkable(tiles: Seq<TileType>, a: int, b: int) -> bool {
    exists|path: Seq<int>| #[trigger] is_floor_walk(tiles, path) && path[0] == a && path.last() == b
}

/// The tile `(x, y)` lies on the map and is floor.
pub open spec fn floor_at(tiles: Seq<TileType>, x: int, y: int) -> bool {
    on_map(x, y) && tiles[index_of(x, y)] == TileType::Floor
}

/// The index of a room's center.
pub open spec fn center_index(r: Rect) -> int {
    index_of(r.center_x(), r.center_y())
}

proof fn lemma_walk_step(tiles: Seq<TileType>, a: int, b: int)
    requires
        0 <= a < NUM_TILES,
        0 <= b < NUM_TILES,
        tiles[a] == TileType::Floor,
        tiles[b] == TileType::Floor,
        a == b || neighbours(a, b),
    ensures
        walkable(tiles, a, b),
{
    if a == b {
        let p = seq![a];
        assert(is_floor_walk(tiles, p));
    } else {
        let p = seq![a, b];
        assert(p[0] == a && p[1] == b);
        assert(is_floor_walk(tiles, p));
    }
}

proof fn lemma_walk_trans(tiles: Seq<TileType>, a: int, b: int, c: int)
    requires
        walkable(tiles, a, b),
        walkable(tiles, b, c),
    ensures
        walkable(tiles, a, c),
{
    let p1 = choose|p: Seq<int>| #[trigger] is_floor_walk(tiles, p) && p[0] == a && p.last() == b;
    let p2 = choose|p: Seq<int>| #[trigger] is_floor_walk(tiles, p) && p[0] == b && p.last() == c;
    let rest = p2.subrange(1, p2.len() as int);
    let p = p1 + rest;
    assert forall|k: int| 0 <= k < p.len() implies 0 <= #[trigger] p[k] < NUM_TILES && tiles[p[k]]
        == TileType::Floor by {
        if k < p1.len() {
            assert(p[k] == p1[k]);
        } else {
            assert(p[k] == p2[k - p1.len() + 1]);
        }
    }
    assert forall|k: int| 0 <= k < p.len() - 1 implies #[trigger] neighbours(p[k], p[k + 1]) by {
        if k < p1.len() - 1 {
            assert(p[k] == p1[k] && p[k + 1] == p1[k + 1]);
        } else if k == p1.len() - 1 {
            assert(p[k] == p2[0]);
            assert(p[k + 1] == p2[1]);
        } else {
            assert(p[k] == p2[k - p1.len() + 1]);
            assert(p[k + 1] == p2[k - p1.len() + 2]);
        }
    }
    if p2.len() == 1 {
        assert(p.last() == p1.last());
    } else {
        assert(p.last() == p2.last());
    }
    assert(is_floor_walk(tiles, p));
}

proof fn lemma_walk_back(tiles: Seq<TileType>, a: int, b: int)
    requires
        walkable(tiles, a, b),
    ensures
        walkable(tiles, b, a),
{
    let p = choose|p: Seq<int>| #[trigger] is_floor_walk(tiles, p) && p[0] == a && p.last() == b;
    let n = p.len() as int;
    let r = Seq::new(p.len(), |k: int| p[n - 1 - k]);
    assert forall|k: int| 0 <= k < r.len() implies 0 <= #[trigger] r[k] < NUM_TILES && tiles[r[k]]
        == TileType::Floor by {
        assert(r[k] == p[n - 1 - k]);
    }
    assert forall|k: int| 0 <= k < r.len() - 1 implies #[trigger] neighbours(r[k], r[k + 1]) by {
        assert(neighbours(p[n - 2 - k], p[n - 2 - k + 1]));
    }
    assert(is_floor_walk(tiles, r));
}

/// A row of floor can be walked along.
proof fn lemma_walk_row(tiles: Seq<TileType>, y: int, x1: int, x2: int)
    requires
        forall|x: int|
            (if x1 <= x2 { x1 <= x <= x2 } else { x2 <= x <= x1 }) ==> #[trigger] floor_at(tiles, x, y),
    ensures
        walkable(tiles, index_of(x1, y), index_of(x2, y)),
    decreases (if x1 <= x2 { x2 - x1 } else { x1 - x2 }),
{
    assert(floor_at(tiles, x1, y));
    lemma_index_coordinates(x1, y);
    if x1 == x2 {
        lemma_walk_step(tiles, index_of(x1, y), index_of(x1, y));
    } else {
        let next = if x1 < x2 { x1 + 1 } else { x1 - 1 };
        assert(floor_at(tiles, next, y));
        lemma_index_coordinates(next, y);
        lemma_walk_step(tiles, index_of(x1, y), index_of(next, y));
        lemma_walk_row(tiles, y, next, x2);
        lemma_walk_trans(tiles, index_of(x1, y), index_of(next, y), index_of(x2, y));
    }
}

/// A column of floor can be walked along.
proof fn lemma_walk_column(tiles: Seq<TileType>, x: int, y1: int, y2: int)
    requires
        forall|y: int|
            (if y1 <= y2 { y1 <= y <= y2 } else { y2 <= y <= y1 }) ==> #[trigger] floor_at(tiles, x, y),
    ensures
        walkable(tiles, index_of(x, y1), index_of(x, y2)),
    decreases (if y1 <= y2 { y2 - y1 } else { y1 - y2 }),
{
    assert(floor_at(tiles, x, y1));
    lemma_index_coordinates(x, y1);
    if y1 == y2 {
        lemma_walk_step(tiles, index_of(x, y1), index_of(x, y1));
    } else {
        let next = if y1 < y2 { y1 + 1 } else { y1 - 1 };
        assert(floor_at(tiles, x, next));
        lemma_index_coordinates(x, next);
        lemma_walk_step(tiles, index_of(x, y1), index_of(x, next));
        lemma_walk_column(tiles, x, next, y2);
        lemma_walk_trans(tiles, index_of(x, y1), index_of(x, next), index_of(x, y2));
    }
}

/// Along a dug corridor one walks from one room's center to the next.
proof fn lemma_walk_corridor(tiles: Seq<TileType>, prev: Rect, next: Rect, across_first: bool)
    requires
        drawn_room(prev),
        drawn_room(next),
        forall|i: int|
            0 <= i < NUM_TILES && #[trigger] on_corridor(i, prev, next, across_first) ==> tiles[i]
                == TileType::Floor,
    ensures
        walkable(tiles, center_index(prev), center_index(next)),
{
    lemma_drawn_center(prev);
    lemma_drawn_center(next);
    let (px, py, nx, ny) = (prev.center_x(), prev.center_y(), next.center_x(), next.center_y());
    if across_first {
        assert forall|x: int| (if px <= nx { px <= x <= nx } else { nx <= x <= px }) implies #[trigger] floor_at(tiles, x, py) by {
            lemma_index_coordinates(x, py);
            assert(on_horizontal_run(index_of(x, py), px, nx, py));
            assert(on_corridor(index_of(x, py), prev, next, across_first));
        }
        lemma_walk_row(tiles, py, px, nx);
        assert forall|y: int| (if py <= ny { py <= y <= ny } else { ny <= y <= py }) implies #[trigger] floor_at(tiles, nx, y) by {
            lemma_index_coordinates(nx, y);
            assert(on_vertical_run(index_of(nx, y), py, ny, nx));
            assert(on_corridor(index_of(nx, y), prev, next, across_first));
        }
        lemma_walk_column(tiles, nx, py, ny);
        lemma_walk_trans(tiles, index_of(px, py), index_of(nx, py), index_of(nx, ny));
    } else {
        assert forall|y: int| (if py <= ny { py <= y <= ny } else { ny <= y <= py }) implies #[trigger] floor_at(tiles, px, y) by {
            lemma_index_coordinates(px, y);
            assert(on_vertical_run(index_of(px, y), py, ny, px));
            assert(on_corridor(index_of(px, y), prev, next, across_first));
        }
        lemma_walk_column(tiles, px, py, ny);
        assert forall|x: int| (if px <= nx { px <= x <= nx } else { nx <= x <= px }) implies #[trigger] floor_at(tiles, x, ny) by {
            lemma_index_coordinates(x, ny);
            assert(on_horizontal_run(index_of(x, ny), px, nx, ny));
            assert(on_corridor(index_of(x, ny), prev, next, across_first));
        }
        lemma_walk_row(tiles, ny, px, nx);
        lemma_walk_trans(tiles, index_of(px, py), index_of(px, ny), index_of(nx, ny));
    }
}

/// Within a dug room one walks from its center to any of its tiles.
proof fn lemma_walk_in_room(tiles: Seq<TileType>, r: Rect, x: int, y: int)
    requires
        drawn_room(r),
        r.holds(x, y),
        forall|i: int| 0 <= i < NUM_TILES && #[trigger] room_digs(r, i) ==> tiles[i] == TileType::Floor,
    ensures
        walkable(tiles, center_index(r), index_of(x, y)),
{
    lemma_drawn_center(r);
    let (cx, cy) = (r.center_x(), r.center_y());
    assert forall|x2: int| (if cx <= x { cx <= x2 <= x } else { x <= x2 <= cx }) implies #[trigger] floor_at(tiles, x2, cy) by {
        lemma_index_coordinates(x2, cy);
        assert(room_digs(r, index_of(x2, cy)));
    }
    lemma_walk_row(tiles, cy, cx, x);
    assert forall|y2: int| (if cy <= y { cy <= y2 <= y } else { y <= y2 <= cy }) implies #[trigger] floor_at(tiles, x, y2) by {
        lemma_index_coordinates(x, y2);
        assert(room_digs(r, index_of(x, y2)));
    }
    lemma_walk_column(tiles, x, cy, y);
    lemma_walk_trans(tiles, index_of(cx, cy), index_of(x, cy), index_of(x, y));
}

/// Every tile of every room of a rooms layout can be reached on foot from the player's start.
pub proof fn lemma_rooms_reachable(mb: MapBuilder)
    requires
        mb.is_rooms_layout(),
    ensures
        forall|k: int, x: int, y: int|
            0 <= k < mb.rooms@.len() && #[trigger] mb.rooms@[k].holds(x, y) ==> walkable(
                mb.map.tiles@,
                index_of(mb.player_start.x as int, mb.player_start.y as int),
                index_of(x, y),
            ),
{
    lemma_rooms_layout(mb);
    let tiles = mb.map.tiles@;
    let rooms = mb.rooms@;
    let sorted = sort_by_center_x(rooms);
    let af = choose|af: Seq<bool>| #[trigger] corridors_are_floor(mb, af);
    lemma_sort_members(rooms);
    assert forall|j: int| 0 <= j < sorted.len() implies drawn_room(#[trigger] sorted[j]) by {
        assert(rooms.contains(sorted[j]));
    }
    // Every sorted room's center is reachable from the first sorted room's center.
    assert forall|j: int| 0 <= j < sorted.len() implies walkable(
        tiles,
        center_index(sorted[0]),
        #[trigger] center_index(sorted[j]),
    ) by {
        lemma_chain(mb, af, j);
    }
    // Each room is among the sorted ones.
    lemma_sort_contains(rooms);
    let c0 = center_index(rooms[0]);
    lemma_drawn_center(rooms[0]);
    let j0 = choose|j: int| 0 <= j < sorted.len() && sorted[j] == rooms[0];
    lemma_walk_back(tiles, center_index(sorted[0]), center_index(sorted[j0]));
    assert forall|k: int, x: int, y: int|
        0 <= k < mb.rooms@.len() && #[trigger] mb.rooms@[k].holds(x, y) implies walkable(
        mb.map.tiles@,
        index_of(mb.player_start.x as int, mb.player_start.y as int),
        index_of(x, y),
    ) by {
        let jk = choose|j: int| 0 <= j < sorted.len() && sorted[j] == rooms[k];
        assert(walkable(tiles, center_index(sorted[0]), center_index(sorted[jk])));
        lemma_walk_trans(tiles, c0, center_index(sorted[0]), center_index(rooms[k]));
        assert forall|i: int| 0 <= i < NUM_TILES && #[trigger] room_digs(rooms[k], i) implies tiles[i]
            == TileType::Floor by {}
        lemma_walk_in_room(tiles, rooms[k], x, y);
        lemma_walk_trans(tiles, c0, center_index(rooms[k]), index_of(x, y));
        assert(mb.player_start.x as int == rooms[0].center_x());
        assert(mb.player_start.y as int == rooms[0].center_y());
    }
}

/// Every room of the input appears among the sorted rooms.
proof fn lemma_sort_contains(rooms: Seq<Rect>)
    ensures
        forall|k: int|
            0 <= k < rooms.len() ==> exists|j: int|
                0 <= j < sort_by_center_x(rooms).len() && sort_by_center_x(rooms)[j] == #[trigger] rooms[k],
{
    broadcast use vstd::seq_lib::group_to_multiset_ensures;

    super::lemma_sort_permutes(rooms);
    let sorted = sort_by_center_x(rooms);
    assert forall|k: int| 0 <= k < rooms.len() implies exists|j: int|
        0 <= j < sorted.len() && sorted[j] == #[trigger] rooms[k] by {
        assert(rooms.contains(rooms[k]));
        assert(rooms.to_multiset().count(rooms[k]) > 0);
        assert(sorted.contains(rooms[k]));
    }
}

/// The first sorted room's center reaches the center of sorted room `j` through the corridors.
proof fn lemma_chain(mb: MapBuilder, af: Seq<bool>, j: int)
    requires
        mb.is_rooms_layout(),
        corridors_are_floor(mb, af),
        0 <= j < mb.rooms@.len(),
        forall|m: int|
            0 <= m < sort_by_center_x(mb.rooms@).len() ==> drawn_room(
                #[trigger] sort_by_center_x(mb.rooms@)[m],
            ),
        sort_by_center_x(mb.rooms@).len() == mb.rooms@.len(),
        forall|i: int| 0 <= i < NUM_TILES && super::on_edge(i) ==> #[trigger] mb.map.tiles@[i] == TileType::Wall,
        forall|k: int, i: int|
            0 <= k < mb.rooms@.len() && 0 <= i < NUM_TILES && room_digs(#[trigger] mb.rooms@[k], i)
                ==> #[trigger] mb.map.tiles@[i] == TileType::Floor,
    ensures
        walkable(
            mb.map.tiles@,
            center_index(sort_by_center_x(mb.rooms@)[0]),
            center_index(sort_by_center_x(mb.rooms@)[j]),
        ),
    decreases j,
{
    let tiles = mb.map.tiles@;
    let sorted = sort_by_center_x(mb.rooms@);
    if j == 0 {
        let r = sorted[0];
        lemma_drawn_center(r);
        lemma_index_coordinates(r.center_x(), r.center_y());
        lemma_sort_contains(mb.rooms@);
        super::lemma_sort_members(mb.rooms@);
        assert(mb.rooms@.contains(r));
        let w = choose|w: int| 0 <= w < mb.rooms@.len() && mb.rooms@[w] == r;
        assert(room_digs(mb.rooms@[w], center_index(r)));
        lemma_walk_step(tiles, center_index(r), center_index(r));
    } else {
        lemma_chain(mb, af, j - 1);
        assert forall|i: int|
            0 <= i < NUM_TILES && #[trigger] on_corridor(i, sorted[j - 1], sorted[j], af[j - 1])
                implies tiles[i] == TileType::Floor by {}
        lemma_walk_corridor(tiles, sorted[j - 1], sorted[j], af[j - 1]);
        lemma_walk_trans(tiles, center_index(sorted[0]), center_index(sorted[j - 1]), center_index(sorted[j]));
    }
}

} // verus!
