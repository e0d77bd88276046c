use vstd::prelude::*;

use crate::geometry::{Point, Rect};
use crate::random::rng_range;
use vstd::multiset::Multiset;
use bracket_lib::prelude::RandomNumberGenerator;
use crate::map::{index_of, on_map, SCREEN_HEIGHT, SCREEN_WIDTH, map_idx, column_of, lemma_index_coordinates, lemma_index_on_map, row_of, DungeonMap, TileType, NUM_TILES};

pub mod reach;
pub mod rooms;

verus! {

/// How many rooms a map is built with.
pub const NUM_ROOMS: usize = 20;

/// The tiles after filling every one with `tile`.
pub open spec fn filled(len: nat, tile: TileType) -> Seq<TileType> {
    Seq::new(len, |i: int| tile)
}

/// The tile with index `i` lies on the column `x`, between rows `y1` and `y2` (in either order).
pub open spec fn on_vertical_run(i: int, y1: int, y2: int, x: int) -> bool {
    column_of(i) == x && (if y1 <= y2 { y1 <= row_of(i) <= y2 } else { y2 <= row_of(i) <= y1 })
}

/// The tile with index `i` lies on the row `y`, between columns `x1` and `x2` (in either order).
pub open spec fn on_horizontal_run(i: int, x1: int, x2: int, y: int) -> bool {
    row_of(i) == y && (if x1 <= x2 { x1 <= column_of(i) <= x2 } else { x2 <= column_of(i) <= x1 })
}

/// The tiles after digging a vertical tunnel of floor along column `x` from row `y1` to row `y2`.
pub open spec fn dig_vertical(tiles: Seq<TileType>, y1: int, y2: int, x: int) -> Seq<TileType> {
    Seq::new(
        tiles.len(),
        |i: int|
            if on_vertical_run(i, y1, y2, x) {
                TileType::Floor
            } else {
                tiles[i]
            },
    )
}

/// The tiles after digging a horizontal tunnel of floor along row `y` from column `x1` to `x2`.
pub open spec fn dig_horizontal(tiles: Seq<TileType>, x1: int, x2: int, y: int) -> Seq<TileType> {
    Seq::new(
        tiles.len(),
        |i: int|
            if on_horizontal_run(i, x1, x2, y) {
                TileType::Floor
            } else {
                tiles[i]
            },
    )
}

/// A tunnel is the same whichever end it is dug from, and digging it again changes nothing.
pub proof fn lemma_tunnels_symmetric_idempotent(tiles: Seq<TileType>, a: int, b: int, c: int)
    ensures
        dig_vertical(tiles, a, b, c) == dig_vertical(tiles, b, a, c),
        dig_vertical(dig_vertical(tiles, a, b, c), a, b, c) == dig_vertical(tiles, a, b, c),
        dig_horizontal(tiles, a, b, c) == dig_horizontal(tiles, b, a, c),
        dig_horizontal(dig_horizontal(tiles, a, b, c), a, b, c) == dig_horizontal(tiles, a, b, c),
{
    assert(dig_vertical(tiles, a, b, c) =~= dig_vertical(tiles, b, a, c));
    assert(dig_vertical(dig_vertical(tiles, a, b, c), a, b, c) =~= dig_vertical(tiles, a, b, c));
    assert(dig_horizontal(tiles, a, b, c) =~= dig_horizontal(tiles, b, a, c));
    assert(dig_horizontal(dig_horizontal(tiles, a, b, c), a, b, c) =~= dig_horizontal(
        tiles,
        a,
        b,
        c,
    ));
}

/// The tiles after digging floor along column `x`, on the rows from `from` up to (not including) `to`.
pub open spec fn dig_column(tiles: Seq<TileType>, x: int, from: int, to: int) -> Seq<TileType> {
    Seq::new(
        tiles.len(),
        |i: int|
            if column_of(i) == x && from <= row_of(i) < to {
                TileType::Floor
            } else {
                tiles[i]
            },
    )
}

/// The tiles after digging floor along row `y`, on the columns from `from` up to (not including) `to`.
pub open spec fn dig_row(tiles: Seq<TileType>, y: int, from: int, to: int) -> Seq<TileType> {
    Seq::new(
        tiles.len(),
        |i: int|
            if row_of(i) == y && from <= column_of(i) < to {
                TileType::Floor
            } else {
                tiles[i]
            },
    )
}

/// Room `r` digs out the tile with index `i`: the tile lies inside `r`, and off the map's
/// top row and left column.
pub open spec fn room_digs(r: Rect, i: int) -> bool {
    r.holds(column_of(i), row_of(i)) && 0 < column_of(i) < SCREEN_WIDTH && 0 < row_of(i) < SCREEN_HEIGHT
}

/// The tiles after digging out room `r`.
pub open spec fn dig_room(tiles: Seq<TileType>, r: Rect) -> Seq<TileType> {
    Seq::new(
        tiles.len(),
        |i: int|
            if room_digs(r, i) {
                TileType::Floor
            } else {
                tiles[i]
            },
    )
}

/// The tiles after digging out room `r` on the rows above `y`, and on row `y` left of column `x`.
pub open spec fn dig_room_until(tiles: Seq<TileType>, r: Rect, y: int, x: int) -> Seq<TileType> {
    Seq::new(
        tiles.len(),
        |i: int|
            if room_digs(r, i) && (row_of(i) < y || (row_of(i) == y && column_of(i) < x)) {
                TileType::Floor
            } else {
                tiles[i]
            },
    )
}

/// The tiles after digging out each of `rooms`, in order.
pub open spec fn dig_rooms(tiles: Seq<TileType>, rooms: Seq<Rect>) -> Seq<TileType>
    decreases rooms.len(),
{
    if rooms.len() == 0 {
        tiles
    } else {
        dig_room(dig_rooms(tiles, rooms.drop_last()), rooms.last())
    }
}

/// A room as `build_random_rooms` draws it: its corner in `1..70` by `1..40`, and its width
/// and height each in `2..10`.
pub open spec fn drawn_room(r: Rect) -> bool {
    &&& 1 <= r.x1 < SCREEN_WIDTH - 10
    &&& 1 <= r.y1 < SCREEN_HEIGHT - 10
    &&& 2 <= r.x2 - r.x1 < 10
    &&& 2 <= r.y2 - r.y1 < 10
}

/// `sorted` with `r` put after every room whose center is not right of `r`'s center, as a
/// stable sort by the centers' `x` places it.
pub open spec fn insert_by_center_x(sorted: Seq<Rect>, r: Rect) -> Seq<Rect>
    decreases sorted.len(),
{
    if sorted.len() == 0 {
        seq![r]
    } else if sorted.last().center_x() <= r.center_x() {
        sorted.push(r)
    } else {
        insert_by_center_x(sorted.drop_last(), r).push(sorted.last())
    }
}

/// `rooms` sorted by the `x` of their centers, rooms with equal `x` kept in their order.
pub open spec fn sort_by_center_x(rooms: Seq<Rect>) -> Seq<Rect>
    decreases rooms.len(),
{
    if rooms.len() == 0 {
        rooms
    } else {
        insert_by_center_x(sort_by_center_x(rooms.drop_last()), rooms.last())
    }
}

/// The tiles after one corridor from center `(px, py)` to center `(nx, ny)`: across then down
/// when `across_first`, else down then across.
pub open spec fn dig_corridor(
    tiles: Seq<TileType>,
    px: int,
    py: int,
    nx: int,
    ny: int,
    across_first: bool,
) -> Seq<TileType> {
    if across_first {
        dig_vertical(dig_horizontal(tiles, px, nx, py), py, ny, nx)
    } else {
        dig_horizontal(dig_vertical(tiles, py, ny, px), px, nx, ny)
    }
}

/// The tiles after the corridors joining each of the first `n` rooms to the one before it,
/// the corridor into room `k` dug across first when `across_first[k - 1]`.
pub open spec fn dig_corridors(
    tiles: Seq<TileType>,
    rooms: Seq<Rect>,
    across_first: Seq<bool>,
    n: int,
) -> Seq<TileType>
    decreases n,
{
    if n <= 1 {
        tiles
    } else {
        dig_corridor(
            dig_corridors(tiles, rooms, across_first, n - 1),
            rooms[n - 2].center_x(),
            rooms[n - 2].center_y(),
            rooms[n - 1].center_x(),
            rooms[n - 1].center_y(),
            across_first[n - 2],
        )
    }
}

/// Inserting `r` at position `j` of a sorted sequence, where every room from `j` on has its
/// center right of `r`'s and the room before `j` (if any) does not, is what a stable sort does.
proof fn lemma_insert_at(sorted: Seq<Rect>, r: Rect, j: int)
    requires
        0 <= j <= sorted.len(),
        forall|k: int| j <= k < sorted.len() ==> (#[trigger] sorted[k]).center_x() > r.center_x(),
        j > 0 ==> sorted[j - 1].center_x() <= r.center_x(),
    ensures
        insert_by_center_x(sorted, r) == sorted.insert(j, r),
    decreases sorted.len(),
{
    if sorted.len() == 0 {
        assert(sorted.insert(j, r) =~= seq![r]);
    } else if j == sorted.len() {
        assert(sorted.insert(j, r) =~= sorted.push(r));
    } else {
        let d = sorted.drop_last();
        lemma_insert_at(d, r, j);
        assert(sorted.insert(j, r) =~= d.insert(j, r).push(sorted.last()));
    }
}

/// Inserting into a sequence sorted by the centers' `x` keeps it sorted.
proof fn lemma_insert_sorted(sorted: Seq<Rect>, r: Rect)
    requires
        forall|a: int, b: int|
            0 <= a < b < sorted.len() ==> (#[trigger] sorted[a]).center_x() <= (
            #[trigger] sorted[b]).center_x(),
    ensures
        forall|a: int, b: int|
            0 <= a < b < insert_by_center_x(sorted, r).len() ==> (#[trigger] insert_by_center_x(
                sorted,
                r,
            )[a]).center_x() <= (#[trigger] insert_by_center_x(sorted, r)[b]).center_x(),
        insert_by_center_x(sorted, r).len() == sorted.len() + 1,
    decreases sorted.len(),
{
    if sorted.len() > 0 && sorted.last().center_x() > r.center_x() {
        let d = sorted.drop_last();
        lemma_insert_sorted(d, r);
        let i = insert_by_center_x(d, r);
        assert forall|k: int| 0 <= k < i.len() implies (#[trigger] i[k]).center_x() <= sorted.last().center_x() by {
            lemma_insert_members(d, r, k);
            if i[k] != r {
                let w = choose|w: int| 0 <= w < d.len() && d[w] == i[k];
                assert(sorted[w] == d[w]);
                assert(sorted[sorted.len() - 1] == sorted.last());
            }
        }
    }
}

/// The rooms come out of the sort ordered by the `x` of their centers.
pub proof fn lemma_sorted_by_center_x(rooms: Seq<Rect>)
    ensures
        forall|a: int, b: int|
            0 <= a < b < sort_by_center_x(rooms).len() ==> (#[trigger] sort_by_center_x(rooms)[a]).center_x()
                <= (#[trigger] sort_by_center_x(rooms)[b]).center_x(),
    decreases rooms.len(),
{
    if rooms.len() > 0 {
        lemma_sorted_by_center_x(rooms.drop_last());
        lemma_insert_sorted(sort_by_center_x(rooms.drop_last()), rooms.last());
    }
}

/// Inserting adds exactly `r` to the rooms.
proof fn lemma_insert_multiset(sorted: Seq<Rect>, r: Rect)
    ensures
        insert_by_center_x(sorted, r).to_multiset() == sorted.to_multiset().insert(r),
    decreases sorted.len(),
{
    broadcast use vstd::seq_lib::group_to_multiset_ensures;
    broadcast use vstd::multiset::group_multiset_axioms;

    if sorted.len() == 0 {
        assert(seq![r] == Seq::<Rect>::empty().push(r));
        assert(Seq::<Rect>::empty().to_multiset() =~= Multiset::empty());
    } else if sorted.last().center_x() <= r.center_x() {
    } else {
        let d = sorted.drop_last();
        lemma_insert_multiset(d, r);
        assert(sorted == d.push(sorted.last()));
        assert(insert_by_center_x(sorted, r).to_multiset() =~= sorted.to_multiset().insert(r));
    }
}

/// Sorting only reorders the rooms: the result holds the same rooms, as often each.
pub proof fn lemma_sort_permutes(rooms: Seq<Rect>)
    ensures
        sort_by_center_x(rooms).to_multiset() == rooms.to_multiset(),
    decreases rooms.len(),
{
    broadcast use vstd::seq_lib::group_to_multiset_ensures;

    if rooms.len() > 0 {
        let d = rooms.drop_last();
        lemma_sort_permutes(d);
        lemma_insert_multiset(sort_by_center_x(d), rooms.last());
        assert(rooms == d.push(rooms.last()));
    }
}

/// Every room of `insert_by_center_x(sorted, r)` is `r` or a room of `sorted`.
proof fn lemma_insert_members(sorted: Seq<Rect>, r: Rect, k: int)
    requires
        0 <= k < sorted.len() + 1,
    ensures
        insert_by_center_x(sorted, r).len() == sorted.len() + 1,
        insert_by_center_x(sorted, r)[k] == r || sorted.contains(insert_by_center_x(sorted, r)[k]),
    decreases sorted.len(),
{
    if sorted.len() == 0 {
    } else if sorted.last().center_x() <= r.center_x() {
        if k < sorted.len() {
            assert(sorted.push(r)[k] == sorted[k]);
        }
    } else {
        let d = sorted.drop_last();
        if k < sorted.len() {
            lemma_insert_members(d, r, k);
            if insert_by_center_x(sorted, r)[k] != r {
                let m = insert_by_center_x(d, r)[k];
                let w = choose|w: int| 0 <= w < d.len() && d[w] == m;
                assert(sorted[w] == m);
            }
        } else {
            lemma_insert_members(d, r, 0);
            assert(sorted[sorted.len() - 1] == sorted.last());
        }
    }
}

/// Sorting keeps the length, and every room of the result is a room of the input.
proof fn lemma_sort_members(rooms: Seq<Rect>)
    ensures
        sort_by_center_x(rooms).len() == rooms.len(),
        forall|k: int|
            0 <= k < rooms.len() ==> rooms.contains(#[trigger] sort_by_center_x(rooms)[k]),
    decreases rooms.len(),
{
    if rooms.len() > 0 {
        let d = rooms.drop_last();
        lemma_sort_members(d);
        let s = sort_by_center_x(d);
        lemma_insert_members(s, rooms.last(), 0);
        assert forall|k: int| 0 <= k < rooms.len() implies rooms.contains(
            #[trigger] sort_by_center_x(rooms)[k],
        ) by {
            lemma_insert_members(s, rooms.last(), k);
            let m = sort_by_center_x(rooms)[k];
            if m == rooms.last() {
                assert(rooms[rooms.len() - 1] == m);
            } else {
                let w = choose|w: int| 0 <= w < s.len() && s[w] == m;
                let v = choose|v: int| 0 <= v < d.len() && d[v] == s[w];
                assert(rooms[v] == m);
            }
        }
    }
}

/// The corridors dug for the first `n` rooms depend only on the first `n - 1` choices.
proof fn lemma_corridors_prefix(
    tiles: Seq<TileType>,
    rooms: Seq<Rect>,
    across_first: Seq<bool>,
    b: bool,
    n: int,
)
    requires
        n <= across_first.len() + 1,
    ensures
        dig_corridors(tiles, rooms, across_first.push(b), n) == dig_corridors(
            tiles,
            rooms,
            across_first,
            n,
        ),
    decreases n,
{
    if n > 1 {
        lemma_corridors_prefix(tiles, rooms, across_first, b, n - 1);
        assert(across_first.push(b)[n - 2] == across_first[n - 2]);
    }
}

/// The tile with index `i` lies on the map's outer edge.
pub open spec fn on_edge(i: int) -> bool {
    column_of(i) == 0 || column_of(i) == SCREEN_WIDTH - 1 || row_of(i) == 0 || row_of(i)
        == SCREEN_HEIGHT - 1
}

/// Digging a room keeps floor as floor.
proof fn lemma_dig_rooms_keeps_floor(tiles: Seq<TileType>, rooms: Seq<Rect>, i: int)
    requires
        0 <= i < tiles.len(),
        tiles[i] == TileType::Floor,
    ensures
        dig_rooms(tiles, rooms)[i] == TileType::Floor,
        dig_rooms(tiles, rooms).len() == tiles.len(),
    decreases rooms.len(),
{
    if rooms.len() > 0 {
        lemma_dig_rooms_keeps_floor(tiles, rooms.drop_last(), i);
    }
}

/// After digging `rooms`, every tile that one of them digs is floor.
proof fn lemma_dig_rooms_floor(tiles: Seq<TileType>, rooms: Seq<Rect>, k: int, i: int)
    requires
        0 <= i < tiles.len(),
        0 <= k < rooms.len(),
        room_digs(rooms[k], i),
    ensures
        dig_rooms(tiles, rooms)[i] == TileType::Floor,
    decreases rooms.len(),
{
    let d = rooms.drop_last();
    lemma_dig_rooms_len(tiles, d);
    if k < rooms.len() - 1 {
        assert(d[k] == rooms[k]);
        lemma_dig_rooms_floor(tiles, d, k, i);
    }
}

/// Digging rooms keeps the number of tiles.
proof fn lemma_dig_rooms_len(tiles: Seq<TileType>, rooms: Seq<Rect>)
    ensures
        dig_rooms(tiles, rooms).len() == tiles.len(),
    decreases rooms.len(),
{
    if rooms.len() > 0 {
        lemma_dig_rooms_len(tiles, rooms.drop_last());
    }
}

/// Digging drawn rooms leaves the map's edge as it was.
proof fn lemma_dig_rooms_edge(tiles: Seq<TileType>, rooms: Seq<Rect>, i: int)
    requires
        0 <= i < tiles.len(),
        tiles.len() == NUM_TILES,
        on_edge(i),
        forall|k: int| 0 <= k < rooms.len() ==> drawn_room(#[trigger] rooms[k]),
    ensures
        dig_rooms(tiles, rooms)[i] == tiles[i],
        dig_rooms(tiles, rooms).len() == tiles.len(),
    decreases rooms.len(),
{
    if rooms.len() > 0 {
        let d = rooms.drop_last();
        assert forall|k: int| 0 <= k < d.len() implies drawn_room(#[trigger] d[k]) by {
            assert(d[k] == rooms[k]);
        }
        lemma_dig_rooms_edge(tiles, d, i);
        assert(drawn_room(rooms[rooms.len() - 1]));
    }
}

/// Corridors keep floor as floor.
proof fn lemma_corridors_keep_floor(
    tiles: Seq<TileType>,
    rooms: Seq<Rect>,
    across_first: Seq<bool>,
    n: int,
    i: int,
)
    requires
        0 <= i < tiles.len(),
        tiles[i] == TileType::Floor,
    ensures
        dig_corridors(tiles, rooms, across_first, n)[i] == TileType::Floor,
        dig_corridors(tiles, rooms, across_first, n).len() == tiles.len(),
    decreases n,
{
    if n > 1 {
        lemma_corridors_keep_floor(tiles, rooms, across_first, n - 1, i);
    }
}

/// The tile with index `i` lies on the corridor from the center of `prev` to the center of
/// `next`: across then down when `across_first`, else down then across.
pub open spec fn on_corridor(i: int, prev: Rect, next: Rect, across_first: bool) -> bool {
    let (px, py, nx, ny) = (prev.center_x(), prev.center_y(), next.center_x(), next.center_y());
    if across_first {
        on_horizontal_run(i, px, nx, py) || on_vertical_run(i, py, ny, nx)
    } else {
        on_vertical_run(i, py, ny, px) || on_horizontal_run(i, px, nx, ny)
    }
}

/// Every tile on the corridor between consecutive rooms (ordered by the `x` of their centers)
/// is floor, each corridor dug across first when `across_first` says so.
pub open spec fn corridors_are_floor(mb: MapBuilder, across_first: Seq<bool>) -> bool {
    forall|k: int, i: int|
        1 <= k < mb.rooms@.len() && 0 <= i < NUM_TILES && #[trigger] on_corridor(
            i,
            sort_by_center_x(mb.rooms@)[k - 1],
            sort_by_center_x(mb.rooms@)[k],
            across_first[k - 1],
        ) ==> mb.map.tiles@[i] == TileType::Floor
}

/// Later corridors keep the floor of earlier ones.
proof fn lemma_corridors_monotone(
    tiles: Seq<TileType>,
    rooms: Seq<Rect>,
    across_first: Seq<bool>,
    m: int,
    n: int,
    i: int,
)
    requires
        m <= n,
        0 <= i < dig_corridors(tiles, rooms, across_first, m).len(),
        dig_corridors(tiles, rooms, across_first, m)[i] == TileType::Floor,
    ensures
        dig_corridors(tiles, rooms, across_first, n)[i] == TileType::Floor,
        dig_corridors(tiles, rooms, across_first, n).len() == dig_corridors(
            tiles,
            rooms,
            across_first,
            m,
        ).len(),
    decreases n - m,
{
    if n > m {
        lemma_corridors_monotone(tiles, rooms, across_first, m, n - 1, i);
        if n <= 1 {
        }
    }
}

/// The corridor into room `k` (of the first `n`) ends up as floor.
proof fn lemma_corridor_dug(
    tiles: Seq<TileType>,
    rooms: Seq<Rect>,
    across_first: Seq<bool>,
    k: int,
    n: int,
    i: int,
)
    requires
        1 <= k < n,
        0 <= i < tiles.len(),
        on_corridor(i, rooms[k - 1], rooms[k], across_first[k - 1]),
    ensures
        dig_corridors(tiles, rooms, across_first, n)[i] == TileType::Floor,
{
    lemma_corridors_len(tiles, rooms, across_first, k);
    lemma_corridors_len(tiles, rooms, across_first, k + 1);
    assert(dig_corridors(tiles, rooms, across_first, k + 1)[i] == TileType::Floor);
    lemma_corridors_monotone(tiles, rooms, across_first, k + 1, n, i);
}

/// Corridors keep the number of tiles.
proof fn lemma_corridors_len(tiles: Seq<TileType>, rooms: Seq<Rect>, across_first: Seq<bool>, n: int)
    ensures
        dig_corridors(tiles, rooms, across_first, n).len() == tiles.len(),
    decreases n,
{
    if n > 1 {
        lemma_corridors_len(tiles, rooms, across_first, n - 1);
    }
}

/// The center of a drawn room lies inside it, away from the map's edge.
proof fn lemma_drawn_center(r: Rect)
    requires
        drawn_room(r),
    ensures
        r.center_fits(),
        r.x1 <= r.center_x() < r.x2,
        r.y1 <= r.center_y() < r.y2,
        1 <= r.center_x() < SCREEN_WIDTH - 2,
        1 <= r.center_y() < SCREEN_HEIGHT - 2,
{
}

/// Corridors between the centers of drawn rooms leave the map's edge as it was.
proof fn lemma_corridors_edge(
    tiles: Seq<TileType>,
    rooms: Seq<Rect>,
    across_first: Seq<bool>,
    n: int,
    i: int,
)
    requires
        0 <= i < tiles.len(),
        on_edge(i),
        n <= rooms.len(),
        forall|k: int| 0 <= k < rooms.len() ==> drawn_room(#[trigger] rooms[k]),
    ensures
        dig_corridors(tiles, rooms, across_first, n)[i] == tiles[i],
        dig_corridors(tiles, rooms, across_first, n).len() == tiles.len(),
    decreases n,
{
    if n > 1 {
        lemma_corridors_edge(tiles, rooms, across_first, n - 1, i);
        lemma_drawn_center(rooms[n - 2]);
        lemma_drawn_center(rooms[n - 1]);
    }
}

/// What a rooms layout promises of its map: every tile of every room is floor, so are the
/// player's start and every monster spawn, and the map's outer edge is all wall.
pub proof fn lemma_rooms_layout(mb: MapBuilder)
    requires
        mb.is_rooms_layout(),
    ensures
        forall|k: int, i: int|
            0 <= k < mb.rooms@.len() && 0 <= i < NUM_TILES && room_digs(#[trigger] mb.rooms@[k], i)
                ==> #[trigger] mb.map.tiles@[i] == TileType::Floor,
        on_map(mb.player_start.x as int, mb.player_start.y as int),
        mb.map.tile_at(mb.player_start.x as int, mb.player_start.y as int) == TileType::Floor,
        forall|k: int|
            0 <= k < mb.monster_spawns@.len() ==> on_map(
                (#[trigger] mb.monster_spawns@[k]).x as int,
                mb.monster_spawns@[k].y as int,
            ) && mb.map.tile_at(mb.monster_spawns@[k].x as int, mb.monster_spawns@[k].y as int)
                == TileType::Floor,
        forall|i: int| 0 <= i < NUM_TILES && on_edge(i) ==> #[trigger] mb.map.tiles@[i] == TileType::Wall,
        exists|across_first: Seq<bool>| #[trigger] corridors_are_floor(mb, across_first),
{
    let walls = filled(NUM_TILES as nat, TileType::Wall);
    let rooms = mb.rooms@;
    let n = rooms.len() as int;
    let sorted = sort_by_center_x(rooms);
    let af = choose|af: Seq<bool>|
        #[trigger] dig_corridors(dig_rooms(walls, rooms), sorted, af, n) == mb.map.tiles@;
    let dug = dig_rooms(walls, rooms);
    assert forall|k: int, i: int|
        0 <= k < mb.rooms@.len() && 0 <= i < NUM_TILES && room_digs(#[trigger] mb.rooms@[k], i)
            implies #[trigger] mb.map.tiles@[i] == TileType::Floor by {
        lemma_dig_rooms_floor(walls, rooms, k, i);
        lemma_dig_rooms_len(walls, rooms);
        lemma_corridors_keep_floor(dug, sorted, af, n, i);
    }
    assert forall|k: int| 0 <= k < n implies on_map(
        (#[trigger] rooms[k]).center_x(),
        rooms[k].center_y(),
    ) && mb.map.tiles@[index_of(rooms[k].center_x(), rooms[k].center_y())] == TileType::Floor by {
        lemma_drawn_center(rooms[k]);
        lemma_index_coordinates(rooms[k].center_x(), rooms[k].center_y());
        let i = index_of(rooms[k].center_x(), rooms[k].center_y());
        assert(room_digs(rooms[k], i));
    }
    assert(on_map(rooms[0].center_x(), rooms[0].center_y()));
    assert forall|k: int| 0 <= k < mb.monster_spawns@.len() implies on_map(
        (#[trigger] mb.monster_spawns@[k]).x as int,
        mb.monster_spawns@[k].y as int,
    ) && mb.map.tile_at(mb.monster_spawns@[k].x as int, mb.monster_spawns@[k].y as int)
        == TileType::Floor by {
        assert(on_map(rooms[k + 1].center_x(), rooms[k + 1].center_y()));
    }
    lemma_sort_members(rooms);
    assert forall|k: int| 0 <= k < sorted.len() implies drawn_room(#[trigger] sorted[k]) by {
        assert(rooms.contains(sorted[k]));
    }
    assert forall|i: int| 0 <= i < NUM_TILES && on_edge(i) implies #[trigger] mb.map.tiles@[i]
        == TileType::Wall by {
        lemma_dig_rooms_edge(walls, rooms, i);
        lemma_corridors_edge(dug, sorted, af, n, i);
    }
    assert forall|k: int, i: int|
        1 <= k < mb.rooms@.len() && 0 <= i < NUM_TILES && #[trigger] on_corridor(
            i,
            sorted[k - 1],
            sorted[k],
            af[k - 1],
        ) implies mb.map.tiles@[i] == TileType::Floor by {
        lemma_dig_rooms_len(walls, rooms);
        lemma_corridor_dug(dug, sorted, af, k, n, i);
    }
    assert(corridors_are_floor(mb, af));
}

/// Among the first `n` distances, index `k` holds the greatest finite one, and no later index
/// among them holds one as great. (`None` stands for a tile the search never reached.)
pub open spec fn farthest_within(d: Seq<Option<u32>>, n: int, k: int) -> bool {
    &&& 0 <= k < n
    &&& d[k] is Some
    &&& forall|j: int| 0 <= j < n && (#[trigger] d[j]) is Some ==> d[j]->0 <= d[k]->0
    &&& forall|j: int| k < j < n && (#[trigger] d[j]) is Some ==> d[j]->0 < d[k]->0
}

/// Index `k` holds the greatest finite distance of `d`, and no later index holds one as great:
/// the tile that `Iterator::max_by` picks among the reached ones.
pub open spec fn is_farthest(d: Seq<Option<u32>>, k: int) -> bool {
    farthest_within(d, d.len() as int, k)
}

/// At most one index is the farthest.
pub proof fn lemma_farthest_unique(d: Seq<Option<u32>>, k1: int, k2: int)
    requires
        is_farthest(d, k1),
        is_farthest(d, k2),
    ensures
        k1 == k2,
{
    if k1 < k2 {
        assert(d[k2] is Some);
    } else if k2 < k1 {
        assert(d[k1] is Some);
    }
}

/// Something that lays out a map. `build` places the amulet by the distances that
/// `distances_from` gives of every tile from the player's start, given the laid-out map and the
/// start's index; it gives `None` when those distances are not one per tile or reach no tile.
pub trait MapArchitect {
    fn build<F: Fn(&DungeonMap, usize) -> Vec<Option<u32>>>(
        &mut self,
        rng: &mut RandomNumberGenerator,
        distances_from: &F,
    ) -> (r: Option<MapBuilder>)
        requires
            forall|m: &DungeonMap, s: usize| #[trigger] distances_from.requires((m, s)),
        ensures
            r matches Some(mb) ==> mb.is_rooms_layout() && exists|d: Vec<Option<u32>>|
                #[trigger] distances_from.ensures((&mb.map, start_index(mb) as usize), d)
                    && usable_distances(d@) && amulet_at_farthest(mb, d@),
            r is None ==> exists|laid: MapBuilder, d: Vec<Option<u32>>|
                laid.is_rooms_layout() && #[trigger] distances_from.ensures(
                    (&laid.map, start_index(laid) as usize),
                    d,
                ) && !usable_distances(d@),
    ;
}

/// The index of the tile the player starts on.
pub open spec fn start_index(mb: MapBuilder) -> int {
    index_of(mb.player_start.x as int, mb.player_start.y as int)
}

/// The distances hold one entry per tile and reach at least one tile.
pub open spec fn usable_distances(d: Seq<Option<u32>>) -> bool {
    d.len() == NUM_TILES && exists|i: int| 0 <= i < d.len() && (#[trigger] d[i]) is Some
}

/// The amulet lies on the reached tile farthest by the distances `d` (of several equally far,
/// the last by index).
pub open spec fn amulet_at_farthest(mb: MapBuilder, d: Seq<Option<u32>>) -> bool {
    exists|k: int|
        #[trigger] is_farthest(d, k) && mb.amulet_start.x == column_of(k) && mb.amulet_start.y
            == row_of(k)
}

/// `b` holds the same rooms, spawns, starts and draw count as `a`; only the tiles may differ.
pub open spec fn same_but_tiles(a: MapBuilder, b: MapBuilder) -> bool {
    &&& b.rooms@ == a.rooms@
    &&& b.monster_spawns@ == a.monster_spawns@
    &&& b.player_start == a.player_start
    &&& b.amulet_start == a.amulet_start
    &&& b.room_draws == a.room_draws
}

/// Digging a vertical tunnel leaves the same builder whichever end comes first, and digging the
/// same tunnel again changes nothing: `a` and `b` are what `vertical_tunnel` leaves of `s` with
/// the ends in either order, and `c` what it leaves of `a` with the same arguments.
pub proof fn lemma_vertical_tunnel_builders(
    s: MapBuilder,
    a: MapBuilder,
    b: MapBuilder,
    c: MapBuilder,
    y1: i32,
    y2: i32,
    x: i32,
)
    requires
        a.map.tiles@ == dig_vertical(s.map.tiles@, y1 as int, y2 as int, x as int),
        same_but_tiles(s, a),
        b.map.tiles@ == dig_vertical(s.map.tiles@, y2 as int, y1 as int, x as int),
        same_but_tiles(s, b),
        c.map.tiles@ == dig_vertical(a.map.tiles@, y1 as int, y2 as int, x as int),
        same_but_tiles(a, c),
    ensures
        b.map.tiles@ == a.map.tiles@ && same_but_tiles(a, b),
        c.map.tiles@ == a.map.tiles@ && same_but_tiles(a, c),
{
    lemma_tunnels_symmetric_idempotent(s.map.tiles@, y1 as int, y2 as int, x as int);
}

/// Digging a horizontal tunnel leaves the same builder whichever end comes first, and digging
/// the same tunnel again changes nothing: `a` and `b` are what `horizontal_tunnel` leaves of `s`
/// with the ends in either order, and `c` what it leaves of `a` with the same arguments.
pub proof fn lemma_horizontal_tunnel_builders(
    s: MapBuilder,
    a: MapBuilder,
    b: MapBuilder,
    c: MapBuilder,
    x1: i32,
    x2: i32,
    y: i32,
)
    requires
        a.map.tiles@ == dig_horizontal(s.map.tiles@, x1 as int, x2 as int, y as int),
        same_but_tiles(s, a),
        b.map.tiles@ == dig_horizontal(s.map.tiles@, x2 as int, x1 as int, y as int),
        same_but_tiles(s, b),
        c.map.tiles@ == dig_horizontal(a.map.tiles@, x1 as int, x2 as int, y as int),
        same_but_tiles(a, c),
    ensures
        b.map.tiles@ == a.map.tiles@ && same_but_tiles(a, b),
        c.map.tiles@ == a.map.tiles@ && same_but_tiles(a, c),
{
    lemma_tunnels_symmetric_idempotent(s.map.tiles@, x1 as int, x2 as int, y as int);
}

pub struct MapBuilder {
    pub map: DungeonMap,
    pub player_start: Point,
    pub rooms: Vec<Rect>,
    pub amulet_start: Point,
    pub monster_spawns: Vec<Point>,
    /// How many random rooms were drawn while laying the rooms out. Drawing stops once
    /// `NUM_ROOMS` rooms fit, or after `u64::MAX` draws.
    pub room_draws: u64,
}

impl MapBuilder {
    /// The builder holds a map laid out from rooms: between one and `NUM_ROOMS` rooms, each
    /// drawn within the map's bounds and none overlapping another, dug into a map of walls and
    /// joined in order of their centers' `x` by corridors; the player starts at the first room's
    /// center and a monster spawns at the center of each other room.
    pub open spec fn is_rooms_layout(&self) -> bool {
        &&& self.map.wf()
        &&& 1 <= self.rooms@.len() <= NUM_ROOMS
        &&& self.rooms@.len() == NUM_ROOMS || self.room_draws == u64::MAX
        &&& forall|k: int| 0 <= k < self.rooms@.len() ==> drawn_room(#[trigger] self.rooms@[k])
        &&& forall|j: int, k: int|
            0 <= j < k < self.rooms@.len() ==> !(#[trigger] self.rooms@[j]).overlaps(
                #[trigger] self.rooms@[k],
            )
        &&& exists|across_first: Seq<bool>|
            #[trigger] dig_corridors(
                dig_rooms(filled(NUM_TILES as nat, TileType::Wall), self.rooms@),
                sort_by_center_x(self.rooms@),
                across_first,
                self.rooms@.len() as int,
            ) == self.map.tiles@
        &&& self.player_start == self.rooms@[0].center_point()
        &&& self.monster_spawns@.len() + 1 == self.rooms@.len()
        &&& forall|k: int|
            0 <= k < self.monster_spawns@.len() ==> #[trigger] self.monster_spawns@[k]
                == self.rooms@[k + 1].center_point()
    }

    /// A builder over a floor-only map, with no rooms and no spawns, and both starts at the origin.
    pub fn new() -> (mb: MapBuilder)
        ensures
            mb.map.wf(),
            forall|i: int| 0 <= i < NUM_TILES ==> mb.map.tiles@[i] == TileType::Floor,
            mb.rooms@.len() == 0,
            mb.monster_spawns@.len() == 0,
            mb.player_start == (Point { x: 0, y: 0 }),
            mb.amulet_start == (Point { x: 0, y: 0 }),
            mb.room_draws == 0,
    {
        MapBuilder {
            map: DungeonMap::new(),
            player_start: Point::zero(),
            rooms: Vec::new(),
            amulet_start: Point::zero(),
            monster_spawns: Vec::new(),
            room_draws: 0,
        }
    }

    /// Sets every tile of the map to `tile`.
    fn fill(&mut self, tile: TileType)
        ensures
            final(self).map.tiles@ == filled(old(self).map.tiles@.len(), tile),
            final(self).rooms@ == old(self).rooms@,
            final(self).monster_spawns@ == old(self).monster_spawns@,
            final(self).player_start == old(self).player_start,
            final(self).amulet_start == old(self).amulet_start,
            final(self).room_draws == old(self).room_draws,
    {
        let n = self.map.tiles.len();
        let mut i: usize = 0;
        while i < n
            invariant
                i <= n,
                n == self.map.tiles@.len(),
                n == old(self).map.tiles@.len(),
                forall|j: int| 0 <= j < i ==> self.map.tiles@[j] == tile,
                self.rooms@ == old(self).rooms@,
                self.monster_spawns@ == old(self).monster_spawns@,
                self.player_start == old(self).player_start,
                self.amulet_start == old(self).amulet_start,
                self.room_draws == old(self).room_draws,
            decreases n - i,
        {
            self.map.tiles.set(i, tile);
            i = i + 1;
        }
        assert(self.map.tiles@ =~= filled(n as nat, tile));
    }

    /// Digs floor along column `x`, from row `y1` to row `y2` inclusive, skipping rows off the map.
    pub fn vertical_tunnel(&mut self, y1: i32, y2: i32, x: i32)
        requires
            old(self).map.wf(),
        ensures
            final(self).map.wf(),
            final(self).map.tiles@ == dig_vertical(old(self).map.tiles@, y1 as int, y2 as int, x as int),
            final(self).rooms@ == old(self).rooms@,
            final(self).monster_spawns@ == old(self).monster_spawns@,
            final(self).player_start == old(self).player_start,
            final(self).amulet_start == old(self).amulet_start,
            final(self).room_draws == old(self).room_draws,
    {
        let lo: i32 = if y1 <= y2 { y1 } else { y2 };
        let hi: i32 = if y1 <= y2 { y2 } else { y1 };
        let ghost start = old(self).map.tiles@;
        let mut yy: i64 = lo as i64;
        while yy <= hi as i64
            invariant
                lo <= yy <= hi as i64 + 1,
                lo == (if y1 <= y2 { y1 } else { y2 }),
                hi == (if y1 <= y2 { y2 } else { y1 }),
                self.map.wf(),
                start == old(self).map.tiles@,
                start.len() == NUM_TILES,
                self.map.tiles@ == dig_column(start, x as int, lo as int, yy as int),
                self.rooms@ == old(self).rooms@,
                self.monster_spawns@ == old(self).monster_spawns@,
                self.player_start == old(self).player_start,
                self.amulet_start == old(self).amulet_start,
                self.room_draws == old(self).room_draws,
            decreases hi as i64 + 1 - yy,
        {
            let y = yy as i32;
            let ghost before = self.map.tiles@;
            if let Some(idx) = self.map.try_idx(Point::new(x, y)) {
                proof {
                    lemma_index_coordinates(x as int, y as int);
                }
                self.map.tiles.set(idx, TileType::Floor);
                proof {
                    assert forall|i: int| 0 <= i < NUM_TILES implies self.map.tiles@[i] == dig_column(
                        start,
                        x as int,
                        lo as int,
                        yy + 1,
                    )[i] by {
                        if i != idx as int {
                            assert(self.map.tiles@[i] == before[i]);
                            lemma_index_on_map(i);
                            if column_of(i) == x && row_of(i) == yy {
                                assert(i == idx as int);
                            }
                        }
                    }
                }
            } else {
                proof {
                    assert forall|i: int| 0 <= i < NUM_TILES implies self.map.tiles@[i] == dig_column(
                        start,
                        x as int,
                        lo as int,
                        yy + 1,
                    )[i] by {
                        lemma_index_on_map(i);
                    }
                }
            }
            assert(self.map.tiles@ =~= dig_column(start, x as int, lo as int, yy + 1));
            yy = yy + 1;
        }
        assert(self.map.tiles@ =~= dig_vertical(start, y1 as int, y2 as int, x as int));
    }

    /// Digs floor along row `y`, from column `x1` to column `x2` inclusive, skipping columns off the map.
    pub fn horizontal_tunnel(&mut self, x1: i32, x2: i32, y: i32)
        requires
            old(self).map.wf(),
        ensures
            final(self).map.wf(),
            final(self).map.tiles@ == dig_horizontal(old(self).map.tiles@, x1 as int, x2 as int, y as int),
            final(self).rooms@ == old(self).rooms@,
            final(self).monster_spawns@ == old(self).monster_spawns@,
            final(self).player_start == old(self).player_start,
            final(self).amulet_start == old(self).amulet_start,
            final(self).room_draws == old(self).room_draws,
    {
        let lo: i32 = if x1 <= x2 { x1 } else { x2 };
        let hi: i32 = if x1 <= x2 { x2 } else { x1 };
        let ghost start = old(self).map.tiles@;
        let mut xx: i64 = lo as i64;
        while xx <= hi as i64
            invariant
                lo <= xx <= hi as i64 + 1,
                lo == (if x1 <= x2 { x1 } else { x2 }),
                hi == (if x1 <= x2 { x2 } else { x1 }),
                self.map.wf(),
                start == old(self).map.tiles@,
                start.len() == NUM_TILES,
                self.map.tiles@ == dig_row(start, y as int, lo as int, xx as int),
                self.rooms@ == old(self).rooms@,
                self.monster_spawns@ == old(self).monster_spawns@,
                self.player_start == old(self).player_start,
                self.amulet_start == old(self).amulet_start,
                self.room_draws == old(self).room_draws,
            decreases hi as i64 + 1 - xx,
        {
            let x = xx as i32;
            let ghost before = self.map.tiles@;
            if let Some(idx) = self.map.try_idx(Point::new(x, y)) {
                proof {
                    lemma_index_coordinates(x as int, y as int);
                }
                self.map.tiles.set(idx, TileType::Floor);
                proof {
                    assert forall|i: int| 0 <= i < NUM_TILES implies self.map.tiles@[i] == dig_row(
                        start,
                        y as int,
                        lo as int,
                        xx + 1,
                    )[i] by {
                        if i != idx as int {
                            assert(self.map.tiles@[i] == before[i]);
                            lemma_index_on_map(i);
                            if row_of(i) == y && column_of(i) == xx {
                                assert(i == idx as int);
                            }
                        }
                    }
                }
            } else {
                proof {
                    assert forall|i: int| 0 <= i < NUM_TILES implies self.map.tiles@[i] == dig_row(
                        start,
                        y as int,
                        lo as int,
                        xx + 1,
                    )[i] by {
                        lemma_index_on_map(i);
                    }
                }
            }
            assert(self.map.tiles@ =~= dig_row(start, y as int, lo as int, xx + 1));
            xx = xx + 1;
        }
        assert(self.map.tiles@ =~= dig_horizontal(start, x1 as int, x2 as int, y as int));
    }

    /// Digs out the tiles of `room` that lie off the map's top row and left column.
    fn carve_room(&mut self, room: Rect)
        requires
            old(self).map.wf(),
        ensures
            final(self).map.wf(),
            final(self).map.tiles@ == dig_room(old(self).map.tiles@, room),
            final(self).rooms@ == old(self).rooms@,
            final(self).monster_spawns@ == old(self).monster_spawns@,
            final(self).player_start == old(self).player_start,
            final(self).amulet_start == old(self).amulet_start,
            final(self).room_draws == old(self).room_draws,
    {
        let ghost start = old(self).map.tiles@;
        let mut y: i32 = room.y1;
        assert(self.map.tiles@ =~= dig_room_until(start, room, y as int, room.x1 as int));
        while y < room.y2
            invariant
                room.y1 <= y,
                self.map.wf(),
                start == old(self).map.tiles@,
                start.len() == NUM_TILES,
                self.map.tiles@ == dig_room_until(start, room, y as int, room.x1 as int),
                self.rooms@ == old(self).rooms@,
                self.monster_spawns@ == old(self).monster_spawns@,
                self.player_start == old(self).player_start,
                self.amulet_start == old(self).amulet_start,
                self.room_draws == old(self).room_draws,
            decreases room.y2 - y,
        {
            let mut x: i32 = room.x1;
            while x < room.x2
                invariant
                    room.y1 <= y < room.y2,
                    room.x1 <= x,
                    self.map.wf(),
                    start.len() == NUM_TILES,
                    self.map.tiles@ == dig_room_until(start, room, y as int, x as int),
                    self.rooms@ == old(self).rooms@,
                    self.monster_spawns@ == old(self).monster_spawns@,
                    self.player_start == old(self).player_start,
                    self.amulet_start == old(self).amulet_start,
                    self.room_draws == old(self).room_draws,
                decreases room.x2 - x,
            {
                let ghost before = self.map.tiles@;
                if x > 0 && x < SCREEN_WIDTH && y > 0 && y < SCREEN_HEIGHT {
                    proof {
                        lemma_index_coordinates(x as int, y as int);
                    }
                    let idx = map_idx(x, y);
                    self.map.tiles.set(idx, TileType::Floor);
                    proof {
                        assert forall|i: int| 0 <= i < NUM_TILES implies self.map.tiles@[i]
                            == dig_room_until(start, room, y as int, x + 1)[i] by {
                            lemma_index_on_map(i);
                            if i != idx as int {
                                assert(self.map.tiles@[i] == before[i]);
                                if row_of(i) == y && column_of(i) == x {
                                    assert(i == idx as int);
                                }
                            }
                        }
                    }
                } else {
                    proof {
                        assert forall|i: int| 0 <= i < NUM_TILES implies self.map.tiles@[i]
                            == dig_room_until(start, room, y as int, x + 1)[i] by {
                            lemma_index_on_map(i);
                        }
                    }
                }
                assert(self.map.tiles@ =~= dig_room_until(start, room, y as int, x + 1));
                x = x + 1;
            }
            assert(self.map.tiles@ =~= dig_room_until(start, room, y + 1, room.x1 as int));
            y = y + 1;
        }
        assert(self.map.tiles@ =~= dig_room(start, room));
    }


    /// Keeps `room` if it overlaps none of the rooms so far: digs it out and adds it after them.
    /// Returns whether it was kept; a room that was not kept leaves the builder as it was.
    pub fn place_room(&mut self, room: Rect) -> (placed: bool)
        requires
            old(self).map.wf(),
        ensures
            placed == !exists|j: int|
                0 <= j < old(self).rooms@.len() && (#[trigger] old(self).rooms@[j]).overlaps(room),
            placed ==> final(self).rooms@ == old(self).rooms@.push(room),
            placed ==> final(self).map.tiles@ == dig_room(old(self).map.tiles@, room),
            !placed ==> *final(self) == *old(self),
            final(self).map.wf(),
            final(self).monster_spawns@ == old(self).monster_spawns@,
            final(self).player_start == old(self).player_start,
            final(self).amulet_start == old(self).amulet_start,
            final(self).room_draws == old(self).room_draws,
    {
        let mut overlap = false;
        let mut r: usize = 0;
        while r < self.rooms.len()
            invariant
                r <= self.rooms@.len(),
                overlap == (exists|j: int| 0 <= j < r && (#[trigger] self.rooms@[j]).overlaps(room)),
            decreases self.rooms@.len() - r,
        {
            if self.rooms[r].intersect(&room) {
                overlap = true;
            }
            r = r + 1;
        }
        if !overlap {
            self.carve_room(room);
            self.rooms.push(room);
        }
        !overlap
    }

    /// Draws random rooms and keeps each one that overlaps none kept before, digging it out,
    /// until there are `NUM_ROOMS` rooms. Returns how many rooms were drawn; the drawing stops
    /// early only when `u64::MAX` rooms have been drawn.
    pub fn build_random_rooms(&mut self, rng: &mut RandomNumberGenerator) -> (draws: u64)
        requires
            old(self).map.wf(),
        ensures
            final(self).map.wf(),
            old(self).rooms@.len() <= final(self).rooms@.len(),
            final(self).rooms@.take(old(self).rooms@.len() as int) == old(self).rooms@,
            old(self).rooms@.len() >= NUM_ROOMS ==> final(self).rooms@ == old(self).rooms@ && draws == 0
                && *final(rng) == *old(rng),
            old(self).rooms@.len() < NUM_ROOMS ==> final(self).rooms@.len() <= NUM_ROOMS,
            old(self).rooms@.len() < NUM_ROOMS ==> (final(self).rooms@.len() == NUM_ROOMS || draws
                == u64::MAX),
            old(self).rooms@.len() == 0 ==> final(self).rooms@.len() >= 1,
            forall|k: int|
                old(self).rooms@.len() <= k < final(self).rooms@.len() ==> drawn_room(
                    #[trigger] final(self).rooms@[k],
                ),
            forall|j: int, k: int|
                0 <= j < k < final(self).rooms@.len() && old(self).rooms@.len() <= k ==> !(
                #[trigger] final(self).rooms@[j]).overlaps(#[trigger] final(self).rooms@[k]),
            final(self).map.tiles@ == dig_rooms(
                old(self).map.tiles@,
                final(self).rooms@.skip(old(self).rooms@.len() as int),
            ),
            (forall|j: int, k: int|
                0 <= j < k < old(self).rooms@.len() ==> !(#[trigger] old(self).rooms@[j]).overlaps(
                    #[trigger] old(self).rooms@[k],
                )) ==> forall|j: int, k: int|
                0 <= j < k < final(self).rooms@.len() ==> !(#[trigger] final(self).rooms@[j]).overlaps(
                    #[trigger] final(self).rooms@[k],
                ),
            final(self).monster_spawns@ == old(self).monster_spawns@,
            final(self).player_start == old(self).player_start,
            final(self).amulet_start == old(self).amulet_start,
            final(self).room_draws == old(self).room_draws,
    {
        let ghost n0 = old(self).rooms@.len() as int;
        let ghost start = old(self).map.tiles@;
        let mut draws: u64 = 0;
        assert(self.rooms@.skip(n0) =~= Seq::<Rect>::empty());
        while self.rooms.len() < NUM_ROOMS && draws < u64::MAX
            invariant
                self.map.wf(),
                n0 == old(self).rooms@.len(),
                start == old(self).map.tiles@,
                n0 <= self.rooms@.len(),
                self.rooms@.take(n0) == old(self).rooms@,
                n0 >= NUM_ROOMS ==> self.rooms@ == old(self).rooms@ && draws == 0 && *rng == *old(rng),
                n0 < NUM_ROOMS ==> self.rooms@.len() <= NUM_ROOMS,
                n0 == 0 && draws > 0 ==> self.rooms@.len() >= 1,
                forall|k: int| n0 <= k < self.rooms@.len() ==> drawn_room(#[trigger] self.rooms@[k]),
                forall|j: int, k: int|
                    0 <= j < k < self.rooms@.len() && n0 <= k ==> !(#[trigger] self.rooms@[j]).overlaps(
                        #[trigger] self.rooms@[k],
                    ),
                self.map.tiles@ == dig_rooms(start, self.rooms@.skip(n0)),
                self.monster_spawns@ == old(self).monster_spawns@,
                self.player_start == old(self).player_start,
                self.amulet_start == old(self).amulet_start,
                self.room_draws == old(self).room_draws,
            decreases u64::MAX - draws,
        {
            let room = Rect::with_size(
                rng_range(rng, 1, SCREEN_WIDTH - 10),
                rng_range(rng, 1, SCREEN_HEIGHT - 10),
                rng_range(rng, 2, 10),
                rng_range(rng, 2, 10),
            );
            draws = draws + 1;
            let ghost before = self.rooms@;
            if self.place_room(room) {
                proof {
                    assert(self.rooms@.take(n0) =~= before.take(n0));
                    assert(self.rooms@.skip(n0).drop_last() =~= before.skip(n0));
                    assert forall|j: int, k: int|
                        0 <= j < k < self.rooms@.len() && n0 <= k implies !(#[trigger] self.rooms@[j]).overlaps(
                        #[trigger] self.rooms@[k]) by {
                        if k == self.rooms@.len() - 1 {
                            assert(self.rooms@[j] == before[j]);
                        } else {
                            assert(self.rooms@[j] == before[j]);
                            assert(self.rooms@[k] == before[k]);
                        }
                    }
                }
            }
        }
        proof {
            if forall|j: int, k: int|
                0 <= j < k < n0 ==> !(#[trigger] old(self).rooms@[j]).overlaps(#[trigger] old(self).rooms@[k]) {
                assert forall|j: int, k: int| 0 <= j < k < self.rooms@.len() implies !(
                #[trigger] self.rooms@[j]).overlaps(#[trigger] self.rooms@[k]) by {
                    if k < n0 {
                        assert(self.rooms@[j] == self.rooms@.take(n0)[j]);
                        assert(self.rooms@[k] == self.rooms@.take(n0)[k]);
                    }
                }
            }
        }
        draws
    }


    /// A copy of `rooms` sorted by the `x` of their centers, equal ones kept in their order.
    fn sorted_by_center_x(rooms: &Vec<Rect>) -> (sorted: Vec<Rect>)
        requires
            forall|k: int| 0 <= k < rooms@.len() ==> (#[trigger] rooms@[k]).center_fits(),
        ensures
            sorted@ == sort_by_center_x(rooms@),
            forall|k: int| 0 <= k < sorted@.len() ==> (#[trigger] sorted@[k]).center_fits(),
    {
        let mut sorted: Vec<Rect> = Vec::new();
        let mut i: usize = 0;
        while i < rooms.len()
            invariant
                i <= rooms@.len(),
                forall|k: int| 0 <= k < rooms@.len() ==> (#[trigger] rooms@[k]).center_fits(),
                sorted@ == sort_by_center_x(rooms@.take(i as int)),
                forall|k: int| 0 <= k < sorted@.len() ==> (#[trigger] sorted@[k]).center_fits(),
            decreases rooms@.len() - i,
        {
            let r = rooms[i];
            let key = r.center().x;
            let mut j: usize = sorted.len();
            while j > 0 && sorted[j - 1].center().x > key
                invariant
                    j <= sorted@.len(),
                    key == r.center_x(),
                    forall|k: int| 0 <= k < sorted@.len() ==> (#[trigger] sorted@[k]).center_fits(),
                    forall|k: int| j <= k < sorted@.len() ==> (#[trigger] sorted@[k]).center_x() > key,
                decreases j,
            {
                j = j - 1;
            }
            proof {
                lemma_insert_at(sorted@, r, j as int);
                assert(rooms@.take(i + 1).drop_last() =~= rooms@.take(i as int));
            }
            sorted.insert(j, r);
            i = i + 1;
        }
        assert(rooms@.take(rooms@.len() as int) =~= rooms@);
        sorted
    }


    /// Joins `prev` to `new` with an L-shaped corridor: along `prev`'s row to `new`'s column and
    /// then down that column when `across_first`, else along `prev`'s column to `new`'s row and
    /// then across that row.
    pub fn dig_corridor_between(&mut self, prev: Point, new: Point, across_first: bool)
        requires
            old(self).map.wf(),
        ensures
            final(self).map.wf(),
            final(self).map.tiles@ == dig_corridor(
                old(self).map.tiles@,
                prev.x as int,
                prev.y as int,
                new.x as int,
                new.y as int,
                across_first,
            ),
            final(self).rooms@ == old(self).rooms@,
            final(self).monster_spawns@ == old(self).monster_spawns@,
            final(self).player_start == old(self).player_start,
            final(self).amulet_start == old(self).amulet_start,
            final(self).room_draws == old(self).room_draws,
    {
        if across_first {
            self.horizontal_tunnel(prev.x, new.x, prev.y);
            self.vertical_tunnel(prev.y, new.y, new.x);
        } else {
            self.vertical_tunnel(prev.y, new.y, prev.x);
            self.horizontal_tunnel(prev.x, new.x, new.y);
        }
    }

    /// Sorts the rooms by the `x` of their centers and joins each to the one before it with an
    /// L-shaped corridor, dug across first or down first at random.
    fn build_corridors(&mut self, rng: &mut RandomNumberGenerator)
        requires
            old(self).map.wf(),
            forall|k: int| 0 <= k < old(self).rooms@.len() ==> (#[trigger] old(self).rooms@[k]).center_fits(),
        ensures
            final(self).map.wf(),
            exists|across_first: Seq<bool>|
                #[trigger] dig_corridors(
                    old(self).map.tiles@,
                    sort_by_center_x(old(self).rooms@),
                    across_first,
                    old(self).rooms@.len() as int,
                ) == final(self).map.tiles@,
            final(self).rooms@ == old(self).rooms@,
            final(self).monster_spawns@ == old(self).monster_spawns@,
            final(self).player_start == old(self).player_start,
            final(self).amulet_start == old(self).amulet_start,
            final(self).room_draws == old(self).room_draws,
    {
        let rooms = Self::sorted_by_center_x(&self.rooms);
        proof {
            lemma_sort_members(self.rooms@);
        }
        let ghost start = old(self).map.tiles@;
        let ghost mut choices: Seq<bool> = Seq::empty();
        let mut i: usize = 1;
        while i < rooms.len()
            invariant
                1 <= i,
                rooms@.len() == old(self).rooms@.len(),
                rooms@ == sort_by_center_x(old(self).rooms@),
                i <= rooms@.len() || i == 1,
                forall|k: int| 0 <= k < rooms@.len() ==> (#[trigger] rooms@[k]).center_fits(),
                self.map.wf(),
                start == old(self).map.tiles@,
                choices.len() == i - 1,
                self.map.tiles@ == dig_corridors(start, rooms@, choices, i as int),
                self.rooms@ == old(self).rooms@,
                self.monster_spawns@ == old(self).monster_spawns@,
                self.player_start == old(self).player_start,
                self.amulet_start == old(self).amulet_start,
                self.room_draws == old(self).room_draws,
            decreases rooms@.len() - i,
        {
            let prev = rooms[i - 1].center();
            let new = rooms[i].center();
            let across = rng_range(rng, 0, 2) == 1;
            self.dig_corridor_between(prev, new, across);
            proof {
                lemma_corridors_prefix(start, rooms@, choices, across, i as int);
                choices = choices.push(across);
            }
            i = i + 1;
        }
        proof {
            if rooms@.len() == 0 {
                assert(dig_corridors(start, rooms@, choices, 0) == start);
                assert(dig_corridors(start, rooms@, choices, 1) == start);
            } else {
                assert(i == rooms@.len());
                assert(self.map.tiles@ == dig_corridors(start, rooms@, choices, i as int));
            }
            assert(dig_corridors(start, rooms@, choices, rooms@.len() as int) == self.map.tiles@);
        }
    }


    /// Lays a map out with the rooms architect, and puts the amulet on the reached tile farthest
    /// from the player's start by the distances that `distances_from` gives for the laid-out map
    /// and the start's index. Gives `None` when those distances are not one per tile, or reach
    /// no tile.
    pub fn build<F: Fn(&DungeonMap, usize) -> Vec<Option<u32>>>(
        rng: &mut RandomNumberGenerator,
        distances_from: &F,
    ) -> (r: Option<MapBuilder>)
        requires
            forall|m: &DungeonMap, s: usize| #[trigger] distances_from.requires((m, s)),
        ensures
            r matches Some(mb) ==> mb.is_rooms_layout() && exists|d: Vec<Option<u32>>|
                #[trigger] distances_from.ensures((&mb.map, start_index(mb) as usize), d)
                    && usable_distances(d@) && amulet_at_farthest(mb, d@),
            r matches Some(mb) ==> forall|i: int|
                0 <= i < NUM_TILES && on_edge(i) ==> #[trigger] mb.map.tiles@[i] == TileType::Wall,
            r matches Some(mb) ==> mb.map.tile_at(mb.player_start.x as int, mb.player_start.y as int)
                == TileType::Floor,
            r is None ==> exists|laid: MapBuilder, d: Vec<Option<u32>>|
                laid.is_rooms_layout() && #[trigger] distances_from.ensures(
                    (&laid.map, start_index(laid) as usize),
                    d,
                ) && !usable_distances(d@),
    {
        let mut architect = rooms::RoomsArchitect {};
        let r = architect.build(rng, distances_from);
        proof {
            if r is Some {
                lemma_rooms_layout(r->0);
            }
        }
        r
    }

    /// The reached tile farthest from the player's start, given the distance of every tile from
    /// it (`None` where the search never reached): of several equally far, the last by index.
    pub fn find_most_distant(&self, distances: &Vec<Option<u32>>) -> (p: Point)
        requires
            distances@.len() == NUM_TILES,
            exists|i: int| 0 <= i < distances@.len() && (#[trigger] distances@[i]) is Some,
        ensures
            exists|k: int|
                #[trigger] is_farthest(distances@, k) && p.x == column_of(k) && p.y == row_of(k),
    {
        let d = distances;
        let mut best: usize = 0;
        let mut found = false;
        let mut i: usize = 0;
        while i < d.len()
            invariant
                i <= d@.len(),
                d@.len() == NUM_TILES,
                best < d@.len(),
                found ==> farthest_within(d@, i as int, best as int),
                !found ==> forall|j: int| 0 <= j < i ==> (#[trigger] d@[j]) is None,
            decreases d@.len() - i,
        {
            match d[i] {
                Some(v) => {
                    let better = match d[best] {
                        Some(b) => !found || v >= b,
                        None => true,
                    };
                    if better {
                        best = i;
                        found = true;
                    }
                },
                None => {},
            }
            i = i + 1;
        }
        if !found {
            let ghost w = choose|w: int| 0 <= w < distances@.len() && (#[trigger] distances@[w]) is Some;
            assert(d@[w] is None);
        }
        assert(is_farthest(distances@, best as int));
        self.map.index_to_point2d(best)
    }

    /// Puts the amulet on the reached tile farthest from the player's start.
    pub fn place_amulet(&mut self, distances: &Vec<Option<u32>>)
        requires
            distances@.len() == NUM_TILES,
            exists|i: int| 0 <= i < distances@.len() && (#[trigger] distances@[i]) is Some,
        ensures
            exists|k: int|
                #[trigger] is_farthest(distances@, k) && final(self).amulet_start.x == column_of(k)
                    && final(self).amulet_start.y == row_of(k),
            final(self).map == old(self).map,
            final(self).map.tiles@ == old(self).map.tiles@,
            final(self).rooms@ == old(self).rooms@,
            final(self).monster_spawns@ == old(self).monster_spawns@,
            final(self).player_start == old(self).player_start,
            final(self).room_draws == old(self).room_draws,
    {
        self.amulet_start = self.find_most_distant(distances);
    }


    /// Turns the tile under the amulet's place into the exit to the next level.
    pub fn place_exit(&mut self)
        requires
            old(self).map.wf(),
            on_map(old(self).amulet_start.x as int, old(self).amulet_start.y as int),
        ensures
            final(self).map.wf(),
            final(self).map.tiles@ == old(self).map.tiles@.update(
                index_of(old(self).amulet_start.x as int, old(self).amulet_start.y as int),
                TileType::Exit,
            ),
            final(self).rooms@ == old(self).rooms@,
            final(self).monster_spawns@ == old(self).monster_spawns@,
            final(self).player_start == old(self).player_start,
            final(self).amulet_start == old(self).amulet_start,
            final(self).room_draws == old(self).room_draws,
    {
        proof {
            lemma_index_coordinates(self.amulet_start.x as int, self.amulet_start.y as int);
        }
        let exit_idx = self.map.point2d_to_index(self.amulet_start);
        self.map.tiles.set(exit_idx, TileType::Exit);
    }

    /// Readies the map of the level numbered `map_level`: the last level (the second) keeps no
    /// exit, since the amulet lies there instead, and returns `true`; every other level gets its
    /// exit where the amulet would lie, and returns `false`.
    pub fn prepare_level(&mut self, map_level: u32) -> (amulet_level: bool)
        requires
            old(self).map.wf(),
            on_map(old(self).amulet_start.x as int, old(self).amulet_start.y as int),
        ensures
            amulet_level == (map_level == 2),
            final(self).map.wf(),
            amulet_level ==> final(self).map.tiles@ == old(self).map.tiles@,
            !amulet_level ==> final(self).map.tiles@ == old(self).map.tiles@.update(
                index_of(old(self).amulet_start.x as int, old(self).amulet_start.y as int),
                TileType::Exit,
            ),
            final(self).rooms@ == old(self).rooms@,
            final(self).monster_spawns@ == old(self).monster_spawns@,
            final(self).player_start == old(self).player_start,
            final(self).amulet_start == old(self).amulet_start,
            final(self).room_draws == old(self).room_draws,
    {
        if map_level == 2 {
            true
        } else {
            self.place_exit();
            false
        }
    }

}

} // verus!
