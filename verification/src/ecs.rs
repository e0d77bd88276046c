use vstd::prelude::*;

use crate::components::{FieldOfView, Health, Player, WantsToAttack, WantsToMove};
use crate::geometry::Point;
use legion::systems::CommandBuffer;
use legion::world::SubWorld;
use legion::{Entity, EntityStore, World};

verus! {

#[verifier::external_type_specification]
#[verifier::external_body]
pub struct ExEntity(Entity);

#[verifier::external_type_specification]
#[verifier::external_body]
pub struct ExWorld(World);

#[verifier::external_type_specification]
#[verifier::external_body]
pub struct ExCommandBuffer(CommandBuffer);

#[verifier::external_type_specification]
#[verifier::external_body]
pub struct ExSubWorld<'a>(SubWorld<'a>);

/// A change that the library queues in a command buffer, to be made to the world when the
/// buffer is flushed.
pub enum Queued {
    /// Give `entity` the position `position`, replacing the one it has.
    AddPosition { entity: Entity, position: Point },
    /// Give `entity` a field of view of radius `radius` that sees nothing yet and is dirty.
    AddFieldOfView { entity: Entity, radius: i32 },
    /// Remove `entity` from the world.
    Remove { entity: Entity },
    /// Add an entity that carries the request to move `wants_to_move`.
    PushMove { wants_to_move: WantsToMove },
    /// Add an entity that carries the request to attack `wants_to_attack`.
    PushAttack { wants_to_attack: WantsToAttack },
}

/// The changes queued in a command buffer, in the order they will be made.
pub uninterp spec fn queued(commands: CommandBuffer) -> Seq<Queued>;

/// Calls `CommandBuffer::add_component` with a position, which queues the change at the end of
/// the buffer's queue (commands are pushed at the front and flushed from the back).
#[verifier::external_body]
pub(crate) fn queue_position(commands: &mut CommandBuffer, entity: Entity, position: Point)
    ensures
        queued(*final(commands)) == queued(*old(commands)).push(
            Queued::AddPosition { entity, position },
        ),
{
    commands.add_component(entity, position);
}

/// Calls `CommandBuffer::add_component` with a field of view that sees nothing, which queues the
/// change at the end of the buffer's queue.
#[verifier::external_body]
pub(crate) fn queue_field_of_view(commands: &mut CommandBuffer, entity: Entity, fov: FieldOfView)
    requires
        fov.visible_tiles@.is_empty(),
        fov.is_dirty,
    ensures
        queued(*final(commands)) == queued(*old(commands)).push(
            Queued::AddFieldOfView { entity, radius: fov.radius },
        ),
{
    commands.add_component(entity, fov);
}

/// Calls `CommandBuffer::remove`, which queues the removal at the end of the buffer's queue.
#[verifier::external_body]
pub(crate) fn queue_removal(commands: &mut CommandBuffer, entity: Entity)
    ensures
        queued(*final(commands)) == queued(*old(commands)).push(Queued::Remove { entity }),
{
    commands.remove(entity);
}

/// Calls `CommandBuffer::push` with a movement message, which queues the new entity at the end
/// of the buffer's queue.
#[verifier::external_body]
pub(crate) fn queue_move(commands: &mut CommandBuffer, message: WantsToMove)
    ensures
        queued(*final(commands)) == queued(*old(commands)).push(Queued::PushMove { wants_to_move: message }),
{
    commands.push(((), message));
}

/// Calls `CommandBuffer::push` with an attack message, which queues the new entity at the end
/// of the buffer's queue.
#[verifier::external_body]
pub(crate) fn queue_attack(commands: &mut CommandBuffer, message: WantsToAttack)
    ensures
        queued(*final(commands)) == queued(*old(commands)).push(Queued::PushAttack { wants_to_attack: message }),
{
    commands.push(((), message));
}

/// Whether the system's view of the world gives access to `entity` and shows it as the player.
pub uninterp spec fn shows_player(world: SubWorld, entity: Entity) -> bool;

/// The radius of `entity`'s field of view, when the system's view of the world gives access to
/// `entity` and `entity` has one.
pub uninterp spec fn field_of_view_radius(world: SubWorld, entity: Entity) -> Option<i32>;

/// Whether the system's view of the world gives access to `entity`.
pub uninterp spec fn reaches(world: SubWorld, entity: Entity) -> bool;

/// `entity`'s health, when the system's view of the world gives access to `entity` and lets
/// the system write `entity`'s health.
pub uninterp spec fn health_of(world: SubWorld, entity: Entity) -> Option<Health>;

/// Calls `EntityStore::entry_ref` and then `EntryRef::get_component::<Player>`: whether the
/// entity can be reached and has the `Player` marker.
#[verifier::external_body]
pub(crate) fn is_player(world: &SubWorld, entity: Entity) -> (b: bool)
    ensures
        b == shows_player(*world, entity),
{
    world.entry_ref(entity).map(|entry| entry.get_component::<Player>().is_ok()).unwrap_or(false)
}

/// Calls `EntityStore::entry_ref` and then `EntryRef::get_component::<FieldOfView>`, and picks
/// the radius of the field of view found.
#[verifier::external_body]
pub(crate) fn fov_radius(world: &SubWorld, entity: Entity) -> (r: Option<i32>)
    ensures
        r == field_of_view_radius(*world, entity),
{
    match world.entry_ref(entity) {
        Ok(entry) => entry.get_component::<FieldOfView>().ok().map(|fov| fov.radius),
        Err(_) => None,
    }
}

/// Calls `EntityStore::entry_ref`: whether it succeeds.
#[verifier::external_body]
pub(crate) fn can_reach(world: &SubWorld, entity: Entity) -> (b: bool)
    ensures
        b == reaches(*world, entity),
{
    world.entry_ref(entity).is_ok()
}

/// Calls `EntityStore::entry_mut` and then `EntryMut::get_component_mut::<Health>`, and copies
/// the health found. Only legion's change tracking may move: which entities can be reached,
/// which is the player, and every health stay as they were.
#[verifier::external_body]
pub(crate) fn health(world: &mut SubWorld, entity: Entity) -> (h: Option<Health>)
    ensures
        h == health_of(*old(world), entity),
        forall|e: Entity| health_of(*final(world), e) == health_of(*old(world), e),
        forall|e: Entity| reaches(*final(world), e) == reaches(*old(world), e),
        forall|e: Entity| shows_player(*final(world), e) == shows_player(*old(world), e),
{
    match world.entry_mut(entity) {
        Ok(mut entry) => entry.get_component_mut::<Health>().ok().map(|h| *h),
        Err(_) => None,
    }
}

/// Calls `EntityStore::entry_mut` and then `EntryMut::get_component_mut::<Health>`, and writes
/// `new_health` through the reference found. Only that entity's health changes: which entities
/// can be reached, which is the player, and every other entity's health stay as they were.
#[verifier::external_body]
pub(crate) fn set_health(world: &mut SubWorld, entity: Entity, new_health: Health)
    requires
        health_of(*old(world), entity) is Some,
    ensures
        health_of(*final(world), entity) == Some(new_health),
        forall|e: Entity| e != entity ==> health_of(*final(world), e) == health_of(*old(world), e),
        forall|e: Entity| reaches(*final(world), e) == reaches(*old(world), e),
        forall|e: Entity| shows_player(*final(world), e) == shows_player(*old(world), e),
{
    if let Ok(mut entry) = world.entry_mut(entity) {
        if let Ok(h) = entry.get_component_mut::<Health>() {
            *h = new_health;
        }
    }
}

} // verus!
