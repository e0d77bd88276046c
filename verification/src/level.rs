use vstd::prelude::*;

use crate::geometry::Point;
use legion::Entity;

verus! {

/// Calls `PartialEq::eq` on two entities, which legion derives from their ids: equal exactly
/// when they are the same entity.
#[verifier::external_body]
fn same_entity(a: Entity, b: Entity) -> (r: bool)
    ensures
        r == (a == b),
{
    a == b
}

/// `e` moves on to the next level: it is the player, or an item the player carries (`carried`
/// lists each carried item with its carrier).
pub open spec fn moves_on(e: Entity, player: Entity, carried: Seq<(Entity, Entity)>) -> bool {
    e == player || exists|k: int|
        0 <= k < carried.len() && (#[trigger] carried[k]).0 == e && carried[k].1 == player
}

/// The entities to remove when the player leaves the level: all of `entities`, in order, but
/// the player and what the player carries.
pub fn entities_to_remove(player: Entity, entities: &Vec<Entity>, carried: &Vec<(Entity, Entity)>) -> (r: Vec<Entity>)
    ensures
        r@ == entities@.filter(|e: Entity| !moves_on(e, player, carried@)),
{
    let mut r: Vec<Entity> = Vec::new();
    let mut i: usize = 0;
    while i < entities.len()
        invariant
            i <= entities@.len(),
            r@ == entities@.take(i as int).filter(|e: Entity| !moves_on(e, player, carried@)),
        decreases entities@.len() - i,
    {
        let e = entities[i];
        let mut keep = same_entity(e, player);
        let mut k: usize = 0;
        while k < carried.len()
            invariant
                k <= carried@.len(),
                keep == (e == player || exists|j: int|
                    0 <= j < k && (#[trigger] carried@[j]).0 == e && carried@[j].1 == player),
            decreases carried@.len() - k,
        {
            let (item, owner) = carried[k];
            if same_entity(item, e) && same_entity(owner, player) {
                keep = true;
            }
            k = k + 1;
        }
        proof {
            reveal_with_fuel(Seq::<Entity>::filter, 1);
            assert(entities@.take(i + 1).drop_last() =~= entities@.take(i as int));
            assert(entities@.take(i + 1).last() == e);
        }
        if !keep {
            r.push(e);
        }
        i = i + 1;
    }
    proof {
        assert(entities@.take(entities@.len() as int) =~= entities@);
    }
    r
}

/// Takes a player to the next level: one level deeper, standing on the new map's start.
pub fn enter_next_level(map_level: &mut u32, pos: &mut Point, player_start: Point)
    requires
        *old(map_level) < u32::MAX,
    ensures
        *final(map_level) == *old(map_level) + 1,
        *final(pos) == player_start,
{
    *map_level = *map_level + 1;
    *pos = player_start;
}

} // verus!
