use vstd::prelude::*;

use crate::components::Health;
use crate::geometry::Point;
use crate::map::{index_of, DungeonMap, TileType, NUM_TILES, SCREEN_WIDTH};
use crate::turn_state::TurnState;

verus! {

/// The position `p` names a tile of the map by its row-major index.
pub open spec fn indexes_map(p: Point) -> bool {
    i32::MIN <= p.y * SCREEN_WIDTH <= i32::MAX && 0 <= index_of(p.x as int, p.y as int) < NUM_TILES
}

/// The turn state after looking at one player: dead means the game is over, on the amulet
/// means victory, and on an exit means the next level, each overriding the one before.
pub open spec fn after_player(
    state: TurnState,
    health: Health,
    pos: Point,
    amulet: Point,
    map: DungeonMap,
) -> TurnState {
    let s1 = if health.current < 1 { TurnState::GameOver } else { state };
    let s2 = if pos == amulet { TurnState::Victory } else { s1 };
    if map.tiles@[index_of(pos.x as int, pos.y as int)] == TileType::Exit {
        TurnState::NextLevel
    } else {
        s2
    }
}

/// The turn state after looking at the players in order, starting from `state`.
pub open spec fn after_players(
    state: TurnState,
    players: Seq<(Health, Point)>,
    amulet: Point,
    map: DungeonMap,
) -> TurnState
    decreases players.len(),
{
    if players.len() == 0 {
        state
    } else {
        after_player(
            after_players(state, players.drop_last(), amulet, map),
            players.last().0,
            players.last().1,
            amulet,
            map,
        )
    }
}

/// The turn that follows `state` when nothing happened: the monsters move after the player,
/// and then the game waits for input again.
pub open spec fn next_turn(state: TurnState) -> TurnState {
    match state {
        TurnState::PlayerTurn => TurnState::MonsterTurn,
        TurnState::MonsterTurn => TurnState::AwaitingInput,
        other => other,
    }
}

/// The turn state that ends a turn: unchanged while waiting for input; else the next turn,
/// unless a player died, reached the amulet or stands on an exit. Without an amulet, its
/// position counts as `(-1, -1)`.
pub open spec fn turn_ending(
    state: TurnState,
    players: Seq<(Health, Point)>,
    amulet: Option<Point>,
    map: DungeonMap,
) -> TurnState {
    if state == TurnState::AwaitingInput {
        state
    } else {
        let amulet_pos = match amulet {
            Some(p) => p,
            None => Point { x: -1i32, y: -1i32 },
        };
        after_players(next_turn(state), players, amulet_pos, map)
    }
}

/// With a single player, the turn ends on the next level when the player stands on an exit,
/// else in victory when on the amulet, else in defeat when out of health, else it moves on;
/// while waiting for input it stays as it is.
pub proof fn lemma_one_player_turn_ending(
    state: TurnState,
    health: Health,
    pos: Point,
    amulet: Option<Point>,
    map: DungeonMap,
)
    ensures
        ({
            let amulet_pos = match amulet {
                Some(p) => p,
                None => Point { x: -1i32, y: -1i32 },
            };
            turn_ending(state, seq![(health, pos)], amulet, map) == if state
                == TurnState::AwaitingInput {
                TurnState::AwaitingInput
            } else if map.tiles@[index_of(pos.x as int, pos.y as int)] == TileType::Exit {
                TurnState::NextLevel
            } else if pos == amulet_pos {
                TurnState::Victory
            } else if health.current < 1 {
                TurnState::GameOver
            } else {
                next_turn(state)
            }
        }),
{
    let players = seq![(health, pos)];
    assert(players.drop_last() =~= Seq::<(Health, Point)>::empty());
    assert(players.last() == (health, pos));
    let amulet_pos = match amulet {
        Some(p) => p,
        None => Point { x: -1i32, y: -1i32 },
    };
    assert(after_players(next_turn(state), players.drop_last(), amulet_pos, map) == next_turn(state));
}

/// Every player stands on a tile of the map.
pub open spec fn players_on_map(players: Seq<(Health, Point)>) -> bool {
    forall|k: int| 0 <= k < players.len() ==> indexes_map((#[trigger] players[k]).1)
}

/// Ends the turn: moves it on, or ends the game or the level when a player has died, reached
/// the amulet, or stands on an exit. `players` holds each player's health and position, and
/// `amulet` the position of the first amulet, as queries for them visit them.
pub fn end_turn(
    turn_state: &mut TurnState,
    players: &Vec<(Health, Point)>,
    amulet: Option<Point>,
    map: &DungeonMap,
)
    requires
        *old(turn_state) != TurnState::AwaitingInput ==> map.wf() && players_on_map(players@),
    ensures
        *final(turn_state) == turn_ending(*old(turn_state), players@, amulet, *map),
{
    let amulet_default = Point::new(-1, -1);
    let amulet_pos = match amulet {
        Some(p) => p,
        None => amulet_default,
    };
    let mut new_state = match *turn_state {
        TurnState::AwaitingInput => return ,
        TurnState::PlayerTurn => TurnState::MonsterTurn,
        TurnState::MonsterTurn => TurnState::AwaitingInput,
        other => other,
    };
    let mut i: usize = 0;
    while i < players.len()
        invariant
            i <= players@.len(),
            map.wf(),
            players_on_map(players@),
            new_state == after_players(next_turn(*old(turn_state)), players@.take(i as int), amulet_pos, *map),
        decreases players@.len() - i,
    {
        let (health, pos) = players[i];
        if health.current < 1 {
            new_state = TurnState::GameOver;
        }
        if pos == amulet_pos {
            new_state = TurnState::Victory;
        }
        let idx = map.point2d_to_index(pos);
        if map.tiles[idx] == TileType::Exit {
            new_state = TurnState::NextLevel;
        }
        proof {
            assert(players@.take(i + 1).drop_last() =~= players@.take(i as int));
        }
        i = i + 1;
    }
    proof {
        assert(players@.take(players@.len() as int) =~= players@);
    }
    *turn_state = new_state;
}

/// Ends the turn as `end_turn` does when that can be done (while waiting for input, or with
/// every player on the map), and says so; otherwise leaves the turn state as it is and returns
/// `false`.
pub fn try_end_turn(
    turn_state: &mut TurnState,
    players: &Vec<(Health, Point)>,
    amulet: Option<Point>,
    map: &DungeonMap,
) -> (ended: bool)
    requires
        map.wf(),
    ensures
        ended == (*old(turn_state) == TurnState::AwaitingInput || players_on_map(players@)),
        ended ==> *final(turn_state) == turn_ending(*old(turn_state), players@, amulet, *map),
        !ended ==> *final(turn_state) == *old(turn_state),
{
    if *turn_state == TurnState::AwaitingInput {
        end_turn(turn_state, players, amulet, map);
        return true;
    }
    let mut i: usize = 0;
    while i < players.len()
        invariant
            i <= players@.len(),
            *old(turn_state) != TurnState::AwaitingInput,
            *turn_state == *old(turn_state),
            forall|k: int| 0 <= k < i ==> indexes_map((#[trigger] players@[k]).1),
        decreases players@.len() - i,
    {
        let p = players[i].1;
        assert(players@[i as int].1 == p);
        let width: i64 = SCREEN_WIDTH as i64;
        assert(width == 80);
        let row: i64 = p.y as i64 * width;
        if row < i32::MIN as i64 || row > i32::MAX as i64 {
            return false;
        }
        let idx: i64 = row + p.x as i64;
        if idx < 0 || idx >= NUM_TILES as i64 {
            return false;
        }
        i = i + 1;
    }
    end_turn(turn_state, players, amulet, map);
    true
}

} // verus!
