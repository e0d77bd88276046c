use bracket_lib::prelude::RandomNumberGenerator;
use dungeon_crawl::camera::Camera;
use dungeon_crawl::components::{
    AmuletOfYala, Enemy, FieldOfView, Health, MonsterMovementType, Name, Player, Render,
    WantsToAttack, WantsToMove,
};
use dungeon_crawl::geometry::Point;
use dungeon_crawl::map::{map_idx, DungeonMap, TileType};
use dungeon_crawl::spawner::{
    goblin_movement, monster_kind, new_world, spawn_amulet, spawn_monster, spawn_monsters,
    spawn_player, spawn_rolled_monster, MonsterKind,
};
use dungeon_crawl::systems::chasing::{chasing, Mover, Target};
use dungeon_crawl::systems::combat::try_combat;
use dungeon_crawl::systems::end_turn::try_end_turn;
use dungeon_crawl::systems::movement::movement;
use dungeon_crawl::turn_state::{FrameAction, TurnState};
use legion::systems::CommandBuffer;
use legion::{component, Entity, EntityStore, IntoQuery, Resources, Schedule, SystemBuilder, World};

fn run_movement(world: &mut World, map: DungeonMap, camera: Camera) -> Camera {
    let mut resources = Resources::default();
    resources.insert(map);
    resources.insert(camera);
    let system = SystemBuilder::new("movement")
        .with_query(<(Entity, &WantsToMove)>::query())
        .read_component::<Player>()
        .read_component::<FieldOfView>()
        .read_resource::<DungeonMap>()
        .write_resource::<Camera>()
        .build(|commands, world, resources, query| {
            let messages: Vec<(Entity, WantsToMove)> =
                query.iter(&*world).map(|(e, m)| (*e, *m)).collect();
            for (e, m) in messages {
                let map: &DungeonMap = &resources.0;
                let camera: &mut Camera = &mut resources.1;
                movement(&e, &m, map, camera, world, commands);
            }
        });
    let mut schedule = Schedule::builder().add_system(system).build();
    schedule.execute(world, &mut resources);
    let camera = resources.get::<Camera>().unwrap();
    Camera { left_x: camera.left_x, right_x: camera.right_x, top_y: camera.top_y, bottom_y: camera.bottom_y }
}

fn start_camera() -> Camera {
    Camera::new(Point::new(10, 10))
}

#[test]
fn player_moves_onto_floor_and_camera_follows() {
    let mut world = World::default();
    let player = world.push((Player, Point::new(10, 10), FieldOfView::new(8)));
    let message = world.push(((), WantsToMove { entity: player, destination: Point::new(11, 10) }));
    let camera = run_movement(&mut world, DungeonMap::new(), start_camera());
    let entry = world.entry_ref(player).unwrap();
    assert_eq!(*entry.get_component::<Point>().unwrap(), Point::new(11, 10));
    let fov = entry.get_component::<FieldOfView>().unwrap();
    assert!(fov.is_dirty);
    assert_eq!(fov.radius, 8);
    assert!(fov.visible_tiles.is_empty());
    assert!(world.entry_ref(message).is_err());
    assert_eq!((camera.left_x, camera.right_x, camera.top_y, camera.bottom_y), (-9, 31, -2, 22));
}

#[test]
fn blocked_move_only_drops_the_message() {
    let mut world = World::default();
    let monster = world.push((Enemy, Point::new(10, 10)));
    let message = world.push(((), WantsToMove { entity: monster, destination: Point::new(10, 11) }));
    let mut map = DungeonMap::new();
    map.tiles[map_idx(10, 11)] = TileType::Wall;
    let camera = run_movement(&mut world, map, start_camera());
    assert_eq!(*world.entry_ref(monster).unwrap().get_component::<Point>().unwrap(), Point::new(10, 10));
    assert!(world.entry_ref(message).is_err());
    assert_eq!((camera.left_x, camera.top_y), (-10, -2));
}

#[test]
fn monster_move_leaves_camera_alone() {
    let mut world = World::default();
    let monster = world.push((Enemy, Point::new(10, 10)));
    world.push(((), WantsToMove { entity: monster, destination: Point::new(12, 10) }));
    let camera = run_movement(&mut world, DungeonMap::new(), start_camera());
    assert_eq!(*world.entry_ref(monster).unwrap().get_component::<Point>().unwrap(), Point::new(12, 10));
    assert_eq!((camera.left_x, camera.right_x), (-10, 30));
}

fn run_end_turn(world: &mut World, map: DungeonMap, state: TurnState) -> TurnState {
    let mut players_q = <(&Health, &Point)>::query().filter(component::<Player>());
    let players: Vec<(Health, Point)> = players_q.iter(&*world).map(|(h, p)| (*h, *p)).collect();
    let mut amulet_q = <&Point>::query().filter(component::<AmuletOfYala>());
    let amulet = amulet_q.iter(&*world).next().copied();
    let mut turn = state;
    assert!(try_end_turn(&mut turn, &players, amulet, &map));
    turn
}

#[test]
fn end_turn_passes_the_turn() {
    let mut world = World::default();
    world.push((Player, Point::new(5, 5), Health { current: 10, max: 10 }));
    assert_eq!(run_end_turn(&mut world, DungeonMap::new(), TurnState::PlayerTurn), TurnState::MonsterTurn);
    assert_eq!(run_end_turn(&mut world, DungeonMap::new(), TurnState::MonsterTurn), TurnState::AwaitingInput);
    assert_eq!(run_end_turn(&mut world, DungeonMap::new(), TurnState::AwaitingInput), TurnState::AwaitingInput);
}

#[test]
fn end_turn_ends_the_game_for_a_dead_player() {
    let mut world = World::default();
    world.push((Player, Point::new(5, 5), Health { current: 0, max: 10 }));
    assert_eq!(run_end_turn(&mut world, DungeonMap::new(), TurnState::MonsterTurn), TurnState::GameOver);
    assert_eq!(run_end_turn(&mut world, DungeonMap::new(), TurnState::AwaitingInput), TurnState::AwaitingInput);
}

#[test]
fn end_turn_victory_on_the_amulet() {
    let mut world = World::default();
    world.push((Player, Point::new(5, 5), Health { current: 0, max: 10 }));
    world.push((AmuletOfYala, Point::new(5, 5)));
    assert_eq!(run_end_turn(&mut world, DungeonMap::new(), TurnState::PlayerTurn), TurnState::Victory);
}

#[test]
fn end_turn_exit_leads_to_next_level() {
    let mut world = World::default();
    world.push((Player, Point::new(5, 5), Health { current: 0, max: 10 }));
    world.push((AmuletOfYala, Point::new(5, 5)));
    let mut map = DungeonMap::new();
    map.tiles[map_idx(5, 5)] = TileType::Exit;
    assert_eq!(run_end_turn(&mut world, map, TurnState::PlayerTurn), TurnState::NextLevel);
}

#[test]
fn end_turn_refuses_a_player_off_the_map() {
    let players = vec![(Health { current: 3, max: 10 }, Point::new(5, 60))];
    let mut turn = TurnState::PlayerTurn;
    assert!(!try_end_turn(&mut turn, &players, None, &DungeonMap::new()));
    assert_eq!(turn, TurnState::PlayerTurn);
    let mut waiting = TurnState::AwaitingInput;
    assert!(try_end_turn(&mut waiting, &players, None, &DungeonMap::new()));
    assert_eq!(waiting, TurnState::AwaitingInput);
}

fn run_combat(world: &mut World) {
    let mut resources = Resources::default();
    let system = SystemBuilder::new("combat")
        .read_component::<Player>()
        .write_component::<Health>()
        .with_query(<(Entity, &WantsToAttack)>::query())
        .build(|commands, world, _resources, query| {
            let messages: Vec<(Entity, Entity)> =
                query.iter(&*world).map(|(e, a)| (*e, a.victim)).collect();
            assert!(try_combat(world, &messages, commands));
        });
    let mut schedule = Schedule::builder().add_system(system).build();
    schedule.execute(world, &mut resources);
}

#[test]
fn combat_kills_a_weak_monster() {
    let mut world = World::default();
    let player = world.push((Player, Health { current: 10, max: 10 }));
    let monster = world.push((Enemy, Health { current: 1, max: 3 }));
    let message = world.push(((), WantsToAttack { attacker: player, victim: monster }));
    run_combat(&mut world);
    assert!(world.entry_ref(monster).is_err());
    assert!(world.entry_ref(message).is_err());
    assert!(world.entry_ref(player).is_ok());
}

#[test]
fn combat_wounds_but_never_removes_the_player() {
    let mut world = World::default();
    let player = world.push((Player, Health { current: 3, max: 10 }));
    let monster = world.push((Enemy, Health { current: 7, max: 7 }));
    world.push(((), WantsToAttack { attacker: monster, victim: player }));
    world.push(((), WantsToAttack { attacker: monster, victim: player }));
    run_combat(&mut world);
    let entry = world.entry_ref(player).unwrap();
    let health = entry.get_component::<Health>().unwrap();
    assert!(health.current >= 3 - 10 && health.current <= 3 - 2);
    assert_eq!(health.max, 10);
    let messages = <&WantsToAttack>::query().iter(&world).count();
    assert_eq!(messages, 0);
}

#[test]
fn combat_on_a_victim_without_health_drops_the_message() {
    let mut world = World::default();
    let player = world.push((Player, Health { current: 3, max: 10 }));
    let rock = world.push((Point::new(1, 1),));
    let message = world.push(((), WantsToAttack { attacker: player, victim: rock }));
    run_combat(&mut world);
    assert!(world.entry_ref(rock).is_ok());
    assert!(world.entry_ref(message).is_err());
}

#[test]
fn chasing_monster_next_to_player_attacks() {
    let mut world = World::default();
    let player = world.push((Player, Point::new(5, 5)));
    let monster = world.push((Enemy, Point::new(6, 5)));
    let mut commands = CommandBuffer::new(&world);
    let movers = vec![Mover { entity: monster, pos: Point::new(6, 5), movement: MonsterMovementType::Chasing }];
    let exits = vec![Some(map_idx(5, 5))];
    let targets = vec![
        Target { entity: player, pos: Point::new(5, 5), is_player: true },
        Target { entity: monster, pos: Point::new(6, 5), is_player: false },
    ];
    chasing(&DungeonMap::new(), Point::new(5, 5), &movers, &exits, &targets, &mut commands);
    commands.flush(&mut world);
    let attacks: Vec<WantsToAttack> = <&WantsToAttack>::query().iter(&world).copied().collect();
    assert_eq!(attacks.len(), 1);
    assert_eq!(attacks[0].attacker, monster);
    assert_eq!(attacks[0].victim, player);
    assert_eq!(<&WantsToMove>::query().iter(&world).count(), 0);
}

#[test]
fn chasing_monster_far_away_steps_along_the_exit() {
    let mut world = World::default();
    let player = world.push((Player, Point::new(5, 5)));
    let monster = world.push((Enemy, Point::new(6, 6)));
    let drunk = world.push((Enemy, Point::new(9, 9)));
    let mut commands = CommandBuffer::new(&world);
    let movers = vec![
        Mover { entity: monster, pos: Point::new(6, 6), movement: MonsterMovementType::Chasing },
        Mover { entity: drunk, pos: Point::new(9, 9), movement: MonsterMovementType::Drunk },
    ];
    let exits = vec![Some(map_idx(5, 6)), Some(map_idx(8, 9))];
    let targets = vec![Target { entity: player, pos: Point::new(5, 5), is_player: true }];
    chasing(&DungeonMap::new(), Point::new(5, 5), &movers, &exits, &targets, &mut commands);
    commands.flush(&mut world);
    let moves: Vec<WantsToMove> = <&WantsToMove>::query().iter(&world).copied().collect();
    assert_eq!(moves.len(), 1);
    assert_eq!(moves[0].entity, monster);
    assert_eq!(moves[0].destination, Point::new(5, 6));
    assert_eq!(<&WantsToAttack>::query().iter(&world).count(), 0);
}

#[test]
fn chasing_monster_without_exit_waits() {
    let mut world = World::default();
    let monster = world.push((Enemy, Point::new(6, 6)));
    let mut commands = CommandBuffer::new(&world);
    let movers = vec![Mover { entity: monster, pos: Point::new(6, 6), movement: MonsterMovementType::Chasing }];
    chasing(&DungeonMap::new(), Point::new(1, 1), &movers, &vec![None], &vec![], &mut commands);
    assert!(commands.is_empty());
}

#[test]
fn spawn_player_puts_an_at_sign_with_twenty_hit_points() {
    let mut world = World::default();
    spawn_player(&mut world, Point::new(3, 4));
    let mut q = <(&Player, &Point, &Render, &Health)>::query();
    let found: Vec<(Point, Render, Health)> = q.iter(&world).map(|(_, p, r, h)| (*p, *r, *h)).collect();
    assert_eq!(found.len(), 1);
    let (p, r, h) = found[0];
    assert_eq!(p, Point::new(3, 4));
    assert_eq!(r.glyph, 64);
    assert_eq!((r.color.fg.r, r.color.fg.g, r.color.fg.b), (255, 255, 255));
    assert_eq!((r.color.bg.r, r.color.bg.g, r.color.bg.b), (0, 0, 0));
    assert_eq!(h, Health { current: 20, max: 20 });
}

#[test]
fn spawn_monster_makes_goblins_and_orcs() {
    let mut world = World::default();
    let mut rng = RandomNumberGenerator::seeded(11);
    for i in 0..40 {
        spawn_monster(&mut world, &mut rng, Point::new(i, 1));
    }
    let mut q = <(&Enemy, &Point, &Render, &MonsterMovementType, &Health, &Name)>::query();
    let mut count = 0;
    for (_, _, render, movement, health, name) in q.iter(&world) {
        count += 1;
        match name.0.as_str() {
            "Goblin" => {
                assert_eq!(render.glyph, 103);
                assert_eq!(*health, Health { current: 3, max: 3 });
            }
            "Orc" => {
                assert_eq!(render.glyph, 111);
                assert_eq!(*health, Health { current: 7, max: 7 });
                assert_eq!(*movement, MonsterMovementType::Chasing);
            }
            other => panic!("unexpected monster {}", other),
        }
    }
    assert_eq!(count, 40);
}

#[test]
fn spawn_amulet_puts_the_amulet() {
    let mut world = World::default();
    spawn_amulet(&mut world, Point::new(7, 8));
    let mut q = <(&Point, &Render, &Name)>::query().filter(component::<AmuletOfYala>());
    let found: Vec<(Point, u16, String)> = q.iter(&world).map(|(p, r, n)| (*p, r.glyph, n.0.clone())).collect();
    assert_eq!(found, vec![(Point::new(7, 8), 124, "Amulet of Yala".to_string())]);
}

#[test]
fn goblins_stagger_on_a_one() {
    assert_eq!(goblin_movement(1), MonsterMovementType::Drunk);
    for roll in 2..=6 {
        assert_eq!(goblin_movement(roll), MonsterMovementType::Chasing);
    }
}

#[test]
fn camera_centers_on_the_player() {
    let mut c = Camera::new(Point::new(40, 25));
    assert_eq!((c.left_x, c.right_x, c.top_y, c.bottom_y), (20, 60, 13, 37));
    c.on_player_move(Point::new(0, 0));
    let fresh = Camera::new(Point::new(0, 0));
    assert_eq!((c.left_x, c.right_x, c.top_y, c.bottom_y), (fresh.left_x, fresh.right_x, fresh.top_y, fresh.bottom_y));
    assert_eq!((c.left_x, c.right_x, c.top_y, c.bottom_y), (-20, 20, -12, 12));
}

#[test]
fn each_turn_state_runs_its_frame() {
    assert_eq!(TurnState::AwaitingInput.frame_action(), FrameAction::RunInputSystems);
    assert_eq!(TurnState::PlayerTurn.frame_action(), FrameAction::RunPlayerSystems);
    assert_eq!(TurnState::MonsterTurn.frame_action(), FrameAction::RunMonsterSystems);
    assert_eq!(TurnState::NextLevel.frame_action(), FrameAction::AdvanceLevel);
    assert_eq!(TurnState::GameOver.frame_action(), FrameAction::ShowGameOver);
    assert_eq!(TurnState::Victory.frame_action(), FrameAction::ShowVictory);
}

#[test]
fn leaving_a_level_keeps_the_player_and_its_items() {
    let mut world = World::default();
    let player = world.push((Player,));
    let monster = world.push((Enemy,));
    let sword = world.push((Point::new(0, 0),));
    let rock = world.push((Point::new(1, 1),));
    let entities = vec![player, monster, sword, rock];
    let carried = vec![(sword, player), (rock, monster)];
    assert_eq!(
        dungeon_crawl::level::entities_to_remove(player, &entities, &carried),
        vec![monster, rock]
    );
}

#[test]
fn low_rolls_make_goblins_and_high_rolls_orcs() {
    for roll in 1..=6 {
        assert_eq!(monster_kind(roll), MonsterKind::Goblin);
    }
    for roll in 7..=10 {
        assert_eq!(monster_kind(roll), MonsterKind::Orc);
    }
    let mut world = World::default();
    spawn_rolled_monster(&mut world, 6, Point::new(1, 1));
    spawn_rolled_monster(&mut world, 7, Point::new(2, 1));
    let mut q = <(&Point, &Name, &Health)>::query();
    let mut found: Vec<(Point, String, i32)> =
        q.iter(&world).map(|(p, n, h)| (*p, n.0.clone(), h.max)).collect();
    found.sort_by_key(|(p, _, _)| p.x);
    assert_eq!(
        found,
        vec![(Point::new(1, 1), "Goblin".to_string(), 3), (Point::new(2, 1), "Orc".to_string(), 7)]
    );
}

#[test]
fn entering_the_next_level_moves_the_player_to_the_start() {
    let mut level = 1u32;
    let mut pos = Point::new(9, 9);
    dungeon_crawl::level::enter_next_level(&mut level, &mut pos, Point::new(3, 4));
    assert_eq!(level, 2);
    assert_eq!(pos, Point::new(3, 4));
}

#[test]
fn player_alone_in_a_new_world() {
    let mut w = new_world();
    assert_eq!(w.len(), 0);
    spawn_player(&mut w, Point::new(3, 4));
    assert_eq!(w.len(), 1);
    let found: Vec<(Point, Health)> = <(&Point, &Health)>::query()
        .filter(component::<Player>())
        .iter(&w)
        .map(|(p, h)| (*p, *h))
        .collect();
    assert_eq!(found, vec![(Point::new(3, 4), Health { current: 20, max: 20 })]);
}

#[test]
fn spawn_monsters_puts_one_at_each_spawn() {
    let mut w = new_world();
    let mut rng = RandomNumberGenerator::seeded(12);
    let spawns = vec![Point::new(5, 5), Point::new(9, 2), Point::new(30, 40)];
    spawn_monsters(&mut w, &mut rng, &spawns);
    assert_eq!(w.len(), 3);
    let mut at: Vec<Point> = <&Point>::query().filter(component::<Enemy>()).iter(&w).copied().collect();
    at.sort_by_key(|p| (p.x, p.y));
    assert_eq!(at, spawns);
    for (h, n) in <(&Health, &Name)>::query().iter(&w) {
        assert!((n.0 == "Goblin" && h.current == 3) || (n.0 == "Orc" && h.current == 7));
    }
}
