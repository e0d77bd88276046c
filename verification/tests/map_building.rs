use bracket_lib::prelude::RandomNumberGenerator;
use dungeon_crawl::geometry::{Point, Rect};
use dungeon_crawl::map::{DungeonMap, TileType, NUM_TILES, SCREEN_HEIGHT, SCREEN_WIDTH};
use dungeon_crawl::map_builder::rooms::RoomsArchitect;
use dungeon_crawl::map_builder::{MapArchitect, MapBuilder, NUM_ROOMS};

fn tile(mb: &MapBuilder, x: i32, y: i32) -> TileType {
    mb.map.tiles[(y * SCREEN_WIDTH + x) as usize]
}

/// Steps from `start` to every tile reachable over floor, moving one tile up, down, left or right.
fn step_distances(map: &DungeonMap, start: usize) -> Vec<Option<u32>> {
    let mut d: Vec<Option<u32>> = vec![None; NUM_TILES];
    let mut queue = std::collections::VecDeque::new();
    d[start] = Some(0);
    queue.push_back(start);
    while let Some(i) = queue.pop_front() {
        let (x, y) = ((i % 80) as i32, (i / 80) as i32);
        for (dx, dy) in [(1, 0), (-1, 0), (0, 1), (0, -1)] {
            let (nx, ny) = (x + dx, y + dy);
            if nx >= 0 && nx < SCREEN_WIDTH && ny >= 0 && ny < SCREEN_HEIGHT {
                let j = (ny * SCREEN_WIDTH + nx) as usize;
                if d[j].is_none() && map.tiles[j] == TileType::Floor {
                    d[j] = Some(d[i].unwrap() + 1);
                    queue.push_back(j);
                }
            }
        }
    }
    d
}

fn built(seed: u64) -> MapBuilder {
    let mut rng = RandomNumberGenerator::seeded(seed);
    MapBuilder::build(&mut rng, &step_distances).unwrap()
}

#[test]
fn build_lays_out_separate_rooms() {
    for seed in [1u64, 7, 42, 2024] {
        let mb = built(seed);
        assert_eq!(mb.rooms.len(), NUM_ROOMS);
        assert!(mb.room_draws >= NUM_ROOMS as u64 && mb.room_draws < u64::MAX);
        for (j, a) in mb.rooms.iter().enumerate() {
            assert!(a.x1 >= 1 && a.x1 < SCREEN_WIDTH - 10);
            assert!(a.y1 >= 1 && a.y1 < SCREEN_HEIGHT - 10);
            assert!((2..10).contains(&(a.x2 - a.x1)));
            assert!((2..10).contains(&(a.y2 - a.y1)));
            for b in mb.rooms.iter().skip(j + 1) {
                assert!(!a.intersect(b));
            }
        }
    }
}

#[test]
fn build_digs_every_room_and_keeps_the_edge() {
    let mb = built(99);
    assert_eq!(mb.map.tiles.len(), NUM_TILES);
    for r in mb.rooms.iter() {
        for y in r.y1..r.y2 {
            for x in r.x1..r.x2 {
                assert_eq!(tile(&mb, x, y), TileType::Floor);
            }
        }
    }
    for x in 0..SCREEN_WIDTH {
        assert_eq!(tile(&mb, x, 0), TileType::Wall);
        assert_eq!(tile(&mb, x, SCREEN_HEIGHT - 1), TileType::Wall);
    }
    for y in 0..SCREEN_HEIGHT {
        assert_eq!(tile(&mb, 0, y), TileType::Wall);
        assert_eq!(tile(&mb, SCREEN_WIDTH - 1, y), TileType::Wall);
    }
    assert!(mb.map.tiles.iter().all(|t| *t != TileType::Exit));
}

#[test]
fn build_starts_player_and_monsters_at_room_centers() {
    let mb = built(5);
    assert_eq!(mb.player_start, mb.rooms[0].center());
    assert_eq!(mb.monster_spawns.len(), mb.rooms.len() - 1);
    for (k, p) in mb.monster_spawns.iter().enumerate() {
        assert_eq!(*p, mb.rooms[k + 1].center());
        assert_eq!(tile(&mb, p.x, p.y), TileType::Floor);
    }
    assert_eq!(tile(&mb, mb.player_start.x, mb.player_start.y), TileType::Floor);
    assert_ne!(mb.amulet_start, mb.player_start);
}

#[test]
fn build_puts_the_amulet_on_the_farthest_reached_floor() {
    for seed in [5u64, 8, 31] {
        let mb = built(seed);
        let start = (mb.player_start.y * SCREEN_WIDTH + mb.player_start.x) as usize;
        let d = step_distances(&mb.map, start);
        let a = (mb.amulet_start.y * SCREEN_WIDTH + mb.amulet_start.x) as usize;
        let far = d.iter().filter_map(|v| *v).max().unwrap();
        assert_eq!(d[a], Some(far));
        assert!(d.iter().skip(a + 1).all(|v| *v != Some(far)));
        assert_eq!(mb.map.tiles[a], TileType::Floor);
        assert_ne!(mb.amulet_start, mb.player_start);
        assert_eq!(mb.amulet_start, mb.find_most_distant(&d));
    }
}

#[test]
fn build_matches_the_rooms_architect() {
    let mut rng1 = RandomNumberGenerator::seeded(11);
    let mut rng2 = RandomNumberGenerator::seeded(11);
    let a = MapBuilder::build(&mut rng1, &step_distances).unwrap();
    let b = RoomsArchitect {}.build(&mut rng2, &step_distances).unwrap();
    assert_eq!(a.map.tiles, b.map.tiles);
    assert_eq!(a.rooms, b.rooms);
    assert_eq!(a.player_start, b.player_start);
    assert_eq!(a.amulet_start, b.amulet_start);
    assert_eq!(a.monster_spawns, b.monster_spawns);
    assert_eq!(rng1.next_u64(), rng2.next_u64());
}

#[test]
fn build_gives_none_on_unusable_distances() {
    let mut rng = RandomNumberGenerator::seeded(4);
    let short = |_: &DungeonMap, _: usize| vec![Some(1u32); 10];
    assert!(MapBuilder::build(&mut rng, &short).is_none());
    let unreached = |_: &DungeonMap, _: usize| vec![None; NUM_TILES];
    assert!(MapBuilder::build(&mut rng, &unreached).is_none());
}

#[test]
fn lay_out_leaves_the_amulet_to_build() {
    let mut rng = RandomNumberGenerator::seeded(6);
    let mb = RoomsArchitect {}.lay_out(&mut rng);
    assert_eq!(mb.rooms.len(), NUM_ROOMS);
    assert_eq!(mb.amulet_start, Point::new(0, 0));
    assert_eq!(mb.player_start, mb.rooms[0].center());
}

#[test]
fn place_room_keeps_only_rooms_that_fit() {
    let mut mb = MapBuilder::new();
    mb.map.tiles.iter_mut().for_each(|t| *t = TileType::Wall);
    assert!(mb.place_room(Rect::with_size(2, 2, 3, 3)));
    assert_eq!(mb.rooms, vec![Rect::with_size(2, 2, 3, 3)]);
    assert_eq!(tile(&mb, 2, 2), TileType::Floor);
    assert_eq!(tile(&mb, 4, 4), TileType::Floor);
    assert_eq!(tile(&mb, 5, 5), TileType::Wall);
    let before = mb.map.tiles.clone();
    assert!(!mb.place_room(Rect::with_size(4, 4, 3, 3)));
    assert_eq!(mb.rooms.len(), 1);
    assert_eq!(mb.map.tiles, before);
    assert!(!mb.place_room(Rect::with_size(5, 2, 2, 2)));
    assert!(mb.place_room(Rect::with_size(6, 2, 2, 2)));
    assert_eq!(mb.rooms.len(), 2);
}

#[test]
fn build_random_rooms_fills_up_to_the_limit() {
    let mut mb = MapBuilder::new();
    mb.map.tiles.iter_mut().for_each(|t| *t = TileType::Wall);
    let mut rng = RandomNumberGenerator::seeded(21);
    let draws = mb.build_random_rooms(&mut rng);
    assert_eq!(mb.rooms.len(), NUM_ROOMS);
    assert!(draws >= NUM_ROOMS as u64);
    assert_eq!(mb.room_draws, 0);
    let again = mb.build_random_rooms(&mut rng);
    assert_eq!(again, 0);
    assert_eq!(mb.rooms.len(), NUM_ROOMS);
}

#[test]
fn corridor_bends_as_asked() {
    let mut a = MapBuilder::new();
    a.map.tiles.iter_mut().for_each(|t| *t = TileType::Wall);
    let mut b = MapBuilder::new();
    b.map.tiles.iter_mut().for_each(|t| *t = TileType::Wall);
    a.dig_corridor_between(Point::new(2, 2), Point::new(6, 5), true);
    b.dig_corridor_between(Point::new(2, 2), Point::new(6, 5), false);
    assert_eq!(tile(&a, 6, 2), TileType::Floor);
    assert_eq!(tile(&a, 2, 5), TileType::Wall);
    assert_eq!(tile(&b, 2, 5), TileType::Floor);
    assert_eq!(tile(&b, 6, 2), TileType::Wall);
    for m in [&a, &b] {
        assert_eq!(m.map.tiles.iter().filter(|t| **t == TileType::Floor).count(), 8);
    }
}

#[test]
fn tunnels_ignore_end_order_and_repeat() {
    let mut a = MapBuilder::new();
    a.map.tiles.iter_mut().for_each(|t| *t = TileType::Wall);
    let mut b = MapBuilder::new();
    b.map.tiles.iter_mut().for_each(|t| *t = TileType::Wall);
    a.vertical_tunnel(3, 9, 4);
    b.vertical_tunnel(9, 3, 4);
    assert_eq!(a.map.tiles, b.map.tiles);
    let once = a.map.tiles.clone();
    a.vertical_tunnel(3, 9, 4);
    assert_eq!(a.map.tiles, once);
    a.horizontal_tunnel(-2, 5, 0);
    b.horizontal_tunnel(5, -2, 0);
    assert_eq!(a.map.tiles, b.map.tiles);
    assert_eq!(tile(&a, 0, 0), TileType::Floor);
    assert_eq!(tile(&a, 4, 6), TileType::Floor);
    assert_eq!(tile(&a, 5, 6), TileType::Wall);
}

#[test]
fn corridors_join_room_centers() {
    let mb = built(3);
    let mut rooms = mb.rooms.clone();
    rooms.sort_by(|a, b| a.center().x.cmp(&b.center().x));
    for w in rooms.windows(2) {
        let (p, n) = (w[0].center(), w[1].center());
        let across_then_down = (p.x.min(n.x)..=p.x.max(n.x)).all(|x| tile(&mb, x, p.y) == TileType::Floor)
            && (p.y.min(n.y)..=p.y.max(n.y)).all(|y| tile(&mb, n.x, y) == TileType::Floor);
        let down_then_across = (p.y.min(n.y)..=p.y.max(n.y)).all(|y| tile(&mb, p.x, y) == TileType::Floor)
            && (p.x.min(n.x)..=p.x.max(n.x)).all(|x| tile(&mb, x, n.y) == TileType::Floor);
        assert!(across_then_down || down_then_across);
    }
}

#[test]
fn most_distant_is_the_last_of_the_farthest() {
    let mb = MapBuilder::new();
    let mut d: Vec<Option<u32>> = vec![None; NUM_TILES];
    d[5] = Some(3);
    d[90] = Some(7);
    d[170] = Some(7);
    d[200] = Some(2);
    assert_eq!(mb.find_most_distant(&d), Point::new(10, 2));
}

#[test]
fn most_distant_ignores_unreached_tiles() {
    let mb = MapBuilder::new();
    let mut d: Vec<Option<u32>> = vec![None; NUM_TILES];
    d[3999] = Some(0);
    assert_eq!(mb.find_most_distant(&d), Point::new(79, 49));
}

#[test]
fn place_amulet_then_exit() {
    let mut mb = MapBuilder::new();
    let mut d: Vec<Option<u32>> = vec![Some(1); NUM_TILES];
    d[123] = Some(40);
    mb.place_amulet(&d);
    assert_eq!(mb.amulet_start, Point::new(43, 1));
    mb.place_exit();
    assert_eq!(mb.map.tiles[123], TileType::Exit);
    assert_eq!(mb.map.tiles.iter().filter(|t| **t == TileType::Exit).count(), 1);
}

#[test]
fn second_level_keeps_no_exit() {
    let mut mb = MapBuilder::new();
    mb.amulet_start = Point::new(4, 4);
    assert!(mb.prepare_level(2));
    assert!(mb.map.tiles.iter().all(|t| *t == TileType::Floor));
    assert!(!mb.prepare_level(1));
    assert_eq!(mb.map.tiles[4 * 80 + 4], TileType::Exit);
}

#[test]
fn every_room_is_reachable_from_the_start() {
    let mb = built(17);
    let start = (mb.player_start.y * SCREEN_WIDTH + mb.player_start.x) as usize;
    let mut seen = vec![false; NUM_TILES];
    let mut todo = vec![start];
    seen[start] = true;
    while let Some(i) = todo.pop() {
        let (x, y) = ((i % 80) as i32, (i / 80) as i32);
        for (dx, dy) in [(1, 0), (-1, 0), (0, 1), (0, -1)] {
            let (nx, ny) = (x + dx, y + dy);
            if nx >= 0 && nx < SCREEN_WIDTH && ny >= 0 && ny < SCREEN_HEIGHT {
                let j = (ny * SCREEN_WIDTH + nx) as usize;
                if !seen[j] && mb.map.tiles[j] == TileType::Floor {
                    seen[j] = true;
                    todo.push(j);
                }
            }
        }
    }
    for r in mb.rooms.iter() {
        for y in r.y1..r.y2 {
            for x in r.x1..r.x2 {
                assert!(seen[(y * SCREEN_WIDTH + x) as usize]);
            }
        }
    }
}
