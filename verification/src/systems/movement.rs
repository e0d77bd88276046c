use vstd::prelude::*;

use crate::camera::Camera;
use crate::components::{FieldOfView, WantsToMove};
use crate::ecs::{
    field_of_view_radius, fov_radius, is_player, queue_field_of_view, queue_position, queue_removal,
    queued, shows_player, Queued,
};
use crate::map::{DungeonMap, TileType, SCREEN_HEIGHT, SCREEN_WIDTH};
use legion::systems::CommandBuffer;
use legion::world::SubWorld;
use legion::Entity;

verus! {

/// The changes that handling the movement message `message` queues: when the destination can
/// be entered, the mover's new position, then (when it has one) a fresh field of view of the
/// same radius; in every case, last, the removal of the message.
pub open spec fn movement_changes(
    map: DungeonMap,
    message: Entity,
    want_move: WantsToMove,
    radius: Option<i32>,
) -> Seq<Queued> {
    let moved = if map.enterable(want_move.destination) {
        seq![Queued::AddPosition { entity: want_move.entity, position: want_move.destination }]
            + match radius {
            Some(r) => seq![Queued::AddFieldOfView { entity: want_move.entity, radius: r }],
            None => Seq::empty(),
        }
    } else {
        Seq::empty()
    };
    moved.push(Queued::Remove { entity: message })
}

/// Handles one movement message: moves the mover when it can enter its destination, refreshing
/// its field of view, and centers the camera on the player when the player moved.
pub fn movement(
    entity: &Entity,
    want_move: &WantsToMove,
    map: &DungeonMap,
    camera: &mut Camera,
    world: &SubWorld,
    commands: &mut CommandBuffer,
)
    requires
        map.wf(),
    ensures
        queued(*final(commands)) == queued(*old(commands)) + movement_changes(
            *map,
            *entity,
            *want_move,
            field_of_view_radius(*world, want_move.entity),
        ),
        map.enterable(want_move.destination) && shows_player(*world, want_move.entity)
            ==> final(camera).centered_on(want_move.destination),
        !(map.enterable(want_move.destination) && shows_player(*world, want_move.entity))
            ==> *final(camera) == *old(camera),
{
    let ghost start = queued(*commands);
    if map.can_enter_tile(want_move.destination) {
        queue_position(commands, want_move.entity, want_move.destination);
        match fov_radius(world, want_move.entity) {
            Some(radius) => {
                queue_field_of_view(commands, want_move.entity, FieldOfView::new(radius));
            },
            None => {},
        }
        if is_player(world, want_move.entity) {
            camera.on_player_move(want_move.destination);
        }
    }
    queue_removal(commands, *entity);
    proof {
        let changes = movement_changes(
            *map,
            *entity,
            *want_move,
            field_of_view_radius(*world, want_move.entity),
        );
        assert(queued(*commands) =~= start + changes);
    }
}

/// What handling a movement message queues, told by the destination's tile: when the
/// destination lies on the map and its tile is floor or an exit, the mover's position becomes
/// the destination, then its field of view (if it has one) is renewed with the same radius, then
/// the message is removed; on a wall or off the map only the message is removed.
pub proof fn lemma_movement_by_tile(
    map: DungeonMap,
    message: Entity,
    want_move: WantsToMove,
    radius: Option<i32>,
)
    requires
        map.wf(),
    ensures
        ({
            let p = want_move.destination;
            let changes = movement_changes(map, message, want_move, radius);
            let open = 0 <= p.x < SCREEN_WIDTH && 0 <= p.y < SCREEN_HEIGHT && (map.tiles@[p.y
                * SCREEN_WIDTH + p.x] == TileType::Floor || map.tiles@[p.y * SCREEN_WIDTH + p.x]
                == TileType::Exit);
            &&& changes.len() >= 1
            &&& changes.last() == (Queued::Remove { entity: message })
            &&& open ==> changes[0] == (Queued::AddPosition { entity: want_move.entity, position: p })
            &&& open && radius is Some ==> changes.len() == 3 && changes[1] == (Queued::AddFieldOfView {
                entity: want_move.entity,
                radius: radius->0,
            })
            &&& open && radius is None ==> changes.len() == 2
            &&& !open ==> changes.len() == 1
        }),
{
}

} // verus!
