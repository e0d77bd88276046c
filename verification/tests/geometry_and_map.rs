use dungeon_crawl::geometry::{Point, Rect};
use dungeon_crawl::map::{map_idx, DungeonMap, TileType, NUM_TILES};

#[test]
fn rect_with_size_sets_corners() {
    let r = Rect::with_size(3, 4, 5, 6);
    assert_eq!((r.x1, r.y1, r.x2, r.y2), (3, 4, 8, 10));
}

#[test]
fn rect_center_halves_toward_zero() {
    let r = Rect::with_size(1, 1, 4, 3);
    assert_eq!(r.center(), Point::new(3, 2));
    let n = Rect { x1: -5, x2: 0, y1: -3, y2: 0 };
    assert_eq!(n.center(), Point::new(-2, -1));
}

#[test]
fn rects_that_touch_intersect() {
    let a = Rect::with_size(0, 0, 2, 2);
    let touching = Rect::with_size(2, 0, 2, 2);
    let apart = Rect::with_size(3, 0, 2, 2);
    assert!(a.intersect(&touching));
    assert!(touching.intersect(&a));
    assert!(!a.intersect(&apart));
    assert!(!apart.intersect(&a));
}

#[test]
fn point_in_rect_excludes_far_edges() {
    let r = Rect::with_size(1, 1, 2, 2);
    assert!(r.point_in_rect(Point::new(1, 1)));
    assert!(r.point_in_rect(Point::new(2, 2)));
    assert!(!r.point_in_rect(Point::new(3, 2)));
    assert!(!r.point_in_rect(Point::new(0, 1)));
}

#[test]
fn map_idx_is_row_major() {
    assert_eq!(map_idx(0, 0), 0);
    assert_eq!(map_idx(3, 2), 163);
    assert_eq!(map_idx(79, 49), NUM_TILES - 1);
}

#[test]
fn new_map_is_all_floor() {
    let m = DungeonMap::new();
    assert_eq!(m.tiles.len(), NUM_TILES);
    assert!(m.tiles.iter().all(|t| *t == TileType::Floor));
}

#[test]
fn try_idx_only_on_the_map() {
    let m = DungeonMap::new();
    assert_eq!(m.try_idx(Point::new(5, 1)), Some(85));
    assert_eq!(m.try_idx(Point::new(-1, 1)), None);
    assert_eq!(m.try_idx(Point::new(80, 1)), None);
    assert_eq!(m.try_idx(Point::new(0, 50)), None);
    assert!(m.in_bounds(Point::new(79, 49)));
    assert!(!m.in_bounds(Point::new(79, -1)));
}

#[test]
fn index_and_point_round_trip() {
    let m = DungeonMap::new();
    for p in [Point::new(0, 0), Point::new(79, 0), Point::new(12, 34), Point::new(79, 49)] {
        let i = m.point2d_to_index(p);
        assert_eq!(m.index_to_point2d(i), p);
    }
    assert_eq!(m.index_to_point2d(81), Point::new(1, 1));
}

#[test]
fn only_floor_and_exit_can_be_entered() {
    let mut m = DungeonMap::new();
    m.tiles[map_idx(1, 1)] = TileType::Wall;
    m.tiles[map_idx(2, 1)] = TileType::Exit;
    assert!(!m.can_enter_tile(Point::new(1, 1)));
    assert!(m.can_enter_tile(Point::new(2, 1)));
    assert!(m.can_enter_tile(Point::new(3, 1)));
    assert!(!m.can_enter_tile(Point::new(-1, 1)));
}
