use vstd::prelude::*;

use crate::components::{MonsterMovementType, WantsToAttack, WantsToMove};
use crate::ecs::{queue_attack, queue_move, queued, Queued};
use crate::geometry::Point;
use crate::map::{column_of, row_of, DungeonMap};
use legion::systems::CommandBuffer;
use legion::Entity;

verus! {

/// A monster that may move: its entity, its position and how it moves.
#[derive(Clone, Copy, Debug)]
pub struct Mover {
    pub entity: Entity,
    pub pos: Point,
    pub movement: MonsterMovementType,
}

/// Something with health standing somewhere: its entity, its position, and whether it is the
/// player.
#[derive(Clone, Copy, Debug)]
pub struct Target {
    pub entity: Entity,
    pub pos: Point,
    pub is_player: bool,
}

/// The squared straight-line distance between two points.
pub open spec fn distance_squared(a: Point, b: Point) -> int {
    (a.x - b.x) * (a.x - b.x) + (a.y - b.y) * (a.y - b.y)
}

/// The coordinate differences between two points fit in an `i32`, as the distance computation
/// needs.
pub open spec fn distance_fits(a: Point, b: Point) -> bool {
    -i32::MAX <= a.x - b.x <= i32::MAX && -i32::MAX <= a.y - b.y <= i32::MAX
}

/// Where a chasing monster at `pos` heads: the exit toward the player that the distance map
/// picked (the tile with index `exit`), unless the player is next to it along a row or column
/// (straight-line distance at most 1.2, that is, squared distance at most 1), when it heads for
/// the player.
pub open spec fn chase_destination(pos: Point, player_pos: Point, exit: int) -> Point {
    if distance_squared(pos, player_pos) > 1 {
        Point { x: column_of(exit) as i32, y: row_of(exit) as i32 }
    } else {
        player_pos
    }
}

/// The attacks by `attacker` on the players among `targets` that stand at `destination`.
pub open spec fn attacks_at(attacker: Entity, destination: Point, targets: Seq<Target>) -> Seq<Queued>
    decreases targets.len(),
{
    if targets.len() == 0 {
        Seq::empty()
    } else {
        let t = targets.last();
        attacks_at(attacker, destination, targets.drop_last()) + if t.pos == destination
            && t.is_player {
            seq![Queued::PushAttack { wants_to_attack: WantsToAttack { attacker, victim: t.entity } }]
        } else {
            Seq::empty()
        }
    }
}

/// What a chasing monster queues on heading for `destination`: an attack on each player
/// standing there, or, when there is none, a move there.
pub open spec fn chase_changes(mover: Entity, destination: Point, targets: Seq<Target>) -> Seq<Queued> {
    let attacks = attacks_at(mover, destination, targets);
    if attacks.len() > 0 {
        attacks
    } else {
        seq![Queued::PushMove { wants_to_move: WantsToMove { entity: mover, destination } }]
    }
}

/// What the first `n` movers queue: each chasing monster for which the distance map found an
/// exit heads for its destination; the others queue nothing.
pub open spec fn chasing_changes(
    movers: Seq<Mover>,
    exits: Seq<Option<usize>>,
    player_pos: Point,
    targets: Seq<Target>,
    n: int,
) -> Seq<Queued>
    decreases n,
{
    if n <= 0 {
        Seq::empty()
    } else {
        let m = movers[n - 1];
        chasing_changes(movers, exits, player_pos, targets, n - 1) + if m.movement
            == MonsterMovementType::Chasing && exits[n - 1] is Some {
            chase_changes(
                m.entity,
                chase_destination(m.pos, player_pos, exits[n - 1]->0 as int),
                targets,
            )
        } else {
            Seq::empty()
        }
    }
}

/// Target `j` is the player and stands at `pos`.
pub open spec fn player_stands(targets: Seq<Target>, j: int, pos: Point) -> bool {
    0 <= j < targets.len() && targets[j].is_player && targets[j].pos == pos
}

/// `q` is an attack by `attacker` on some target that is the player and stands at `pos`.
pub open spec fn attacks_player_at(q: Queued, attacker: Entity, targets: Seq<Target>, pos: Point) -> bool {
    exists|j: int|
        #[trigger] player_stands(targets, j, pos) && q == (Queued::PushAttack {
            wants_to_attack: WantsToAttack { attacker, victim: targets[j].entity },
        })
}

/// The attacks on `destination` are attacks by `attacker` on the players standing there, one
/// for each, and there are none exactly when no player stands there.
proof fn lemma_attacks_at(attacker: Entity, destination: Point, targets: Seq<Target>)
    ensures
        forall|i: int|
            0 <= i < attacks_at(attacker, destination, targets).len() ==> attacks_player_at(
                #[trigger] attacks_at(attacker, destination, targets)[i],
                attacker,
                targets,
                destination,
            ),
        forall|j: int|
            #[trigger] player_stands(targets, j, destination) ==> attacks_at(
                attacker,
                destination,
                targets,
            ).contains(
                Queued::PushAttack {
                    wants_to_attack: WantsToAttack { attacker, victim: targets[j].entity },
                },
            ),
        (attacks_at(attacker, destination, targets).len() == 0) == !exists|j: int|
            #[trigger] player_stands(targets, j, destination),
    decreases targets.len(),
{
    if targets.len() > 0 {
        let rest = targets.drop_last();
        let t = targets.last();
        lemma_attacks_at(attacker, destination, rest);
        let prev = attacks_at(attacker, destination, rest);
        let all = attacks_at(attacker, destination, targets);
        assert forall|j: int| #[trigger] player_stands(rest, j, destination) implies player_stands(
            targets,
            j,
            destination,
        ) && targets[j] == rest[j] by {}
        assert forall|i: int| 0 <= i < all.len() implies attacks_player_at(
            #[trigger] all[i],
            attacker,
            targets,
            destination,
        ) by {
            if i < prev.len() {
                assert(all[i] == prev[i]);
                assert(attacks_player_at(prev[i], attacker, rest, destination));
                let j = choose|j: int|
                    #[trigger] player_stands(rest, j, destination) && prev[i] == (Queued::PushAttack {
                        wants_to_attack: WantsToAttack { attacker, victim: rest[j].entity },
                    });
                assert(player_stands(targets, j, destination));
            } else {
                assert(player_stands(targets, targets.len() - 1, destination));
            }
        }
        assert forall|j: int| #[trigger] player_stands(targets, j, destination) implies all.contains(
            Queued::PushAttack { wants_to_attack: WantsToAttack { attacker, victim: targets[j].entity } },
        ) by {
            if j == targets.len() - 1 {
                assert(all[prev.len() as int] == Queued::PushAttack {
                    wants_to_attack: WantsToAttack { attacker, victim: targets[j].entity },
                });
            } else {
                assert(player_stands(rest, j, destination));
                let q = Queued::PushAttack {
                    wants_to_attack: WantsToAttack { attacker, victim: rest[j].entity },
                };
                assert(prev.contains(q));
                let w = choose|w: int| 0 <= w < prev.len() && prev[w] == q;
                assert(all[w] == prev[w]);
            }
        }
        if exists|j: int| #[trigger] player_stands(targets, j, destination) {
            let j = choose|j: int| #[trigger] player_stands(targets, j, destination);
            if j < targets.len() - 1 {
                assert(player_stands(rest, j, destination));
            }
        }
    }
}

/// What chasing queues for monster `k`: what the first `k + 1` monsters queue past what the
/// first `k` queue.
pub open spec fn queued_for(
    movers: Seq<Mover>,
    exits: Seq<Option<usize>>,
    player_pos: Point,
    targets: Seq<Target>,
    k: int,
) -> Seq<Queued> {
    chasing_changes(movers, exits, player_pos, targets, k + 1).skip(
        chasing_changes(movers, exits, player_pos, targets, k).len() as int,
    )
}

/// What chasing queues for monster `k` comes after what it queued for the monsters before it,
/// and a monster that does not chase, or for which the distance map found no exit, queues
/// nothing.
pub proof fn lemma_chasing_prefix(
    movers: Seq<Mover>,
    exits: Seq<Option<usize>>,
    player_pos: Point,
    targets: Seq<Target>,
    k: int,
)
    requires
        0 <= k < movers.len(),
    ensures
        chasing_changes(movers, exits, player_pos, targets, k + 1) == chasing_changes(
            movers,
            exits,
            player_pos,
            targets,
            k,
        ) + queued_for(movers, exits, player_pos, targets, k),
        !(movers[k].movement == MonsterMovementType::Chasing && exits[k] is Some) ==> queued_for(
            movers,
            exits,
            player_pos,
            targets,
            k,
        ).len() == 0,
{
    let before = chasing_changes(movers, exits, player_pos, targets, k);
    let after = chasing_changes(movers, exits, player_pos, targets, k + 1);
    let m = movers[k];
    let dest = chase_destination(m.pos, player_pos, exits[k]->0 as int);
    let piece = if m.movement == MonsterMovementType::Chasing && exits[k] is Some {
        chase_changes(m.entity, dest, targets)
    } else {
        Seq::empty()
    };
    assert(after == before + piece);
    assert(after.skip(before.len() as int) =~= piece);
}

/// A chasing monster `k` for which the distance map found an exit heads for `dest`: the exit's
/// tile, or the player's position when the player is next to it along a row or column. When no
/// player stands there it queues exactly one move there; otherwise it queues no move but an
/// attack on each player standing there, and on no one else.
pub proof fn lemma_chasing_step(
    movers: Seq<Mover>,
    exits: Seq<Option<usize>>,
    player_pos: Point,
    targets: Seq<Target>,
    k: int,
    dest: Point,
)
    requires
        0 <= k < movers.len(),
        movers[k].movement == MonsterMovementType::Chasing,
        exits[k] is Some,
        dest == (if distance_squared(movers[k].pos, player_pos) > 1 {
            Point { x: column_of(exits[k]->0 as int) as i32, y: row_of(exits[k]->0 as int) as i32 }
        } else {
            player_pos
        }),
    ensures
        !(exists|j: int| #[trigger] player_stands(targets, j, dest)) ==> queued_for(
            movers,
            exits,
            player_pos,
            targets,
            k,
        ) == seq![
            Queued::PushMove {
                wants_to_move: WantsToMove { entity: movers[k].entity, destination: dest },
            },
        ],
        (exists|j: int| #[trigger] player_stands(targets, j, dest)) ==> queued_for(
            movers,
            exits,
            player_pos,
            targets,
            k,
        ).len() >= 1,
        forall|i: int|
            0 <= i < queued_for(movers, exits, player_pos, targets, k).len() && (exists|j: int|
                #[trigger] player_stands(targets, j, dest)) ==> attacks_player_at(
                #[trigger] queued_for(movers, exits, player_pos, targets, k)[i],
                movers[k].entity,
                targets,
                dest,
            ),
        forall|j: int|
            #[trigger] player_stands(targets, j, dest) ==> queued_for(
                movers,
                exits,
                player_pos,
                targets,
                k,
            ).contains(
                Queued::PushAttack {
                    wants_to_attack: WantsToAttack { attacker: movers[k].entity, victim: targets[j].entity },
                },
            ),
{
    let before = chasing_changes(movers, exits, player_pos, targets, k);
    let after = chasing_changes(movers, exits, player_pos, targets, k + 1);
    let m = movers[k];
    assert(dest == chase_destination(m.pos, player_pos, exits[k]->0 as int));
    lemma_attacks_at(m.entity, dest, targets);
    let piece = chase_changes(m.entity, dest, targets);
    assert(after == before + piece);
    assert(queued_for(movers, exits, player_pos, targets, k) =~= piece);
    let attacks = attacks_at(m.entity, dest, targets);
    if exists|j: int| #[trigger] player_stands(targets, j, dest) {
        assert(attacks.len() > 0);
        assert(piece == attacks);
    } else {
        assert(attacks.len() == 0);
    }
}

/// Chasing attacks no one but the player: every attack it queues is by a monster on a target
/// that is the player.
pub proof fn lemma_chasing_attacks_only_players(
    movers: Seq<Mover>,
    exits: Seq<Option<usize>>,
    player_pos: Point,
    targets: Seq<Target>,
    n: int,
)
    requires
        0 <= n <= movers.len(),
    ensures
        forall|i: int|
            0 <= i < chasing_changes(movers, exits, player_pos, targets, n).len() && (#[trigger] chasing_changes(
                movers,
                exits,
                player_pos,
                targets,
                n,
            )[i]) is PushAttack ==> exists|j: int|
                0 <= j < targets.len() && targets[j].is_player && (#[trigger] targets[j]).entity
                    == chasing_changes(movers, exits, player_pos, targets, n)[i]->wants_to_attack.victim,
    decreases n,
{
    if n > 0 {
        lemma_chasing_attacks_only_players(movers, exits, player_pos, targets, n - 1);
        lemma_chasing_prefix(movers, exits, player_pos, targets, n - 1);
        let before = chasing_changes(movers, exits, player_pos, targets, n - 1);
        let after = chasing_changes(movers, exits, player_pos, targets, n);
        let step = queued_for(movers, exits, player_pos, targets, n - 1);
        let m = movers[n - 1];
        let dest = chase_destination(m.pos, player_pos, exits[n - 1]->0 as int);
        if m.movement == MonsterMovementType::Chasing && exits[n - 1] is Some {
            lemma_chasing_step(movers, exits, player_pos, targets, n - 1, dest);
        }
        assert forall|i: int| 0 <= i < after.len() && (#[trigger] after[i]) is PushAttack implies exists|j: int|
            0 <= j < targets.len() && targets[j].is_player && (#[trigger] targets[j]).entity
                == after[i]->wants_to_attack.victim by {
            if i < before.len() {
                assert(after[i] == before[i]);
            } else {
                assert(after[i] == step[i - before.len()]);
                if exists|j: int| #[trigger] player_stands(targets, j, dest) {
                    assert(attacks_player_at(step[i - before.len()], m.entity, targets, dest));
                    let j = choose|j: int|
                        #[trigger] player_stands(targets, j, dest) && step[i - before.len()]
                            == (Queued::PushAttack {
                            wants_to_attack: WantsToAttack { attacker: m.entity, victim: targets[j].entity },
                        });
                    assert(targets[j].is_player);
                }
            }
        }
    }
}

/// The squared distance between two points, computed without overflow.
fn squared_distance(a: Point, b: Point) -> (d: i128)
    ensures
        d == distance_squared(a, b),
{
    let dx: i128 = a.x as i128 - b.x as i128;
    let dy: i128 = a.y as i128 - b.y as i128;
    assert(dx * dx <= 0x1_0000_0000 * 0x1_0000_0000) by (nonlinear_arith)
        requires
            -0x1_0000_0000 <= dx <= 0x1_0000_0000,
    ;
    assert(dy * dy <= 0x1_0000_0000 * 0x1_0000_0000) by (nonlinear_arith)
        requires
            -0x1_0000_0000 <= dy <= 0x1_0000_0000,
    ;
    assert(0 <= dx * dx && 0 <= dy * dy) by (nonlinear_arith);
    dx * dx + dy * dy
}

/// Moves every chasing monster one step toward the player along the distance map, or attacks
/// the player when the step would land on it. `exits[k]` is the tile that the distance map
/// toward the player offers `movers[k]` as its lowest exit, if any.
pub fn chasing(
    map: &DungeonMap,
    player_pos: Point,
    movers: &Vec<Mover>,
    exits: &Vec<Option<usize>>,
    targets: &Vec<Target>,
    commands: &mut CommandBuffer,
)
    requires
        exits@.len() == movers@.len(),
        forall|k: int|
            0 <= k < exits@.len() && #[trigger] exits@[k] is Some ==> exits@[k]->0 / 80 <= i32::MAX,
        forall|k: int|
            0 <= k < movers@.len() && (#[trigger] movers@[k]).movement == MonsterMovementType::Chasing
                && exits@[k] is Some ==> distance_fits(movers@[k].pos, player_pos),
    ensures
        queued(*final(commands)) == queued(*old(commands)) + chasing_changes(
            movers@,
            exits@,
            player_pos,
            targets@,
            movers@.len() as int,
        ),
{
    let ghost start = queued(*commands);
    let mut i: usize = 0;
    while i < movers.len()
        invariant
            i <= movers@.len(),
            exits@.len() == movers@.len(),
            forall|k: int|
                0 <= k < exits@.len() && #[trigger] exits@[k] is Some ==> exits@[k]->0 / 80 <= i32::MAX,
            queued(*commands) == start + chasing_changes(movers@, exits@, player_pos, targets@, i as int),
        decreases movers@.len() - i,
    {
        let m = movers[i];
        let ghost before = queued(*commands);
        if m.movement == MonsterMovementType::Chasing {
            if let Some(exit) = exits[i] {
                let destination = if squared_distance(m.pos, player_pos) > 1 {
                    map.index_to_point2d(exit)
                } else {
                    player_pos
                };
                let mut attacked = false;
                let mut j: usize = 0;
                while j < targets.len()
                    invariant
                        j <= targets@.len(),
                        queued(*commands) == before + attacks_at(
                            m.entity,
                            destination,
                            targets@.take(j as int),
                        ),
                        attacked == (attacks_at(m.entity, destination, targets@.take(j as int)).len()
                            > 0),
                    decreases targets@.len() - j,
                {
                    let t = targets[j];
                    proof {
                        assert(targets@.take(j + 1).drop_last() =~= targets@.take(j as int));
                    }
                    if t.pos == destination && t.is_player {
                        queue_attack(commands, WantsToAttack { attacker: m.entity, victim: t.entity });
                        attacked = true;
                    }
                    proof {
                        assert(queued(*commands) =~= before + attacks_at(
                            m.entity,
                            destination,
                            targets@.take(j + 1),
                        ));
                    }
                    j = j + 1;
                }
                if !attacked {
                    queue_move(commands, WantsToMove { entity: m.entity, destination });
                }
                proof {
                    assert(targets@.take(targets@.len() as int) =~= targets@);
                }
            }
        }
        proof {
            assert(queued(*commands) =~= start + chasing_changes(
                movers@,
                exits@,
                player_pos,
                targets@,
                i + 1,
            ));
        }
        i = i + 1;
    }
}

} // verus!
