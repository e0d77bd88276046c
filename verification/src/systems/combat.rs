use vstd::prelude::*;

use crate::components::Health;
use crate::ecs::{
    can_reach, health, health_of, is_player, queue_removal,
    queued, reaches, set_health, shows_player, Queued,
};
use crate::random::{new_rng, roll_dice};
use legion::systems::CommandBuffer;
use legion::world::SubWorld;
use legion::Entity;

verus! {

/// The health of `e` after the first `k` attacks of `messages`, the attack `j` doing
/// `damages[j]` damage to its victim when the victim has health.
pub open spec fn health_after(
    world: SubWorld,
    messages: Seq<(Entity, Entity)>,
    damages: Seq<i32>,
    k: int,
    e: Entity,
) -> Option<Health>
    decreases k,
{
    if k <= 0 {
        health_of(world, e)
    } else {
        let prev = health_after(world, messages, damages, k - 1, e);
        if messages[k - 1].1 == e && prev is Some {
            Some(Health { current: (prev->0.current - damages[k - 1]) as i32, max: prev->0.max })
        } else {
            prev
        }
    }
}

/// What the first `k` attacks queue: for each, the removal of a victim that is not the player
/// and whose health the attack brought below one, then the removal of the message.
pub open spec fn combat_changes(
    world: SubWorld,
    messages: Seq<(Entity, Entity)>,
    damages: Seq<i32>,
    k: int,
) -> Seq<Queued>
    decreases k,
{
    if k <= 0 {
        Seq::empty()
    } else {
        let message = messages[k - 1].0;
        let victim = messages[k - 1].1;
        let before = health_after(world, messages, damages, k - 1, victim);
        let after = health_after(world, messages, damages, k, victim);
        let killed = if before is Some && after->0.current < 1 && !shows_player(world, victim) {
            seq![Queued::Remove { entity: victim }]
        } else {
            Seq::empty()
        };
        combat_changes(world, messages, damages, k - 1) + killed.push(
            Queued::Remove { entity: message },
        )
    }
}

/// Every victim of `messages` can be reached, and its health (if any) can take `attacks`
/// attacks of up to five damage without overflow.
pub open spec fn victims_ready(world: SubWorld, messages: Seq<(Entity, Entity)>, attacks: int) -> bool {
    forall|k: int|
        0 <= k < messages.len() ==> reaches(world, (#[trigger] messages[k]).1) && (health_of(
            world,
            messages[k].1,
        ) is Some ==> health_of(world, messages[k].1)->0.current >= i32::MIN + 5 * attacks)
}

/// Resolves every attack message (`messages` lists each message's entity and its victim, as a
/// query for them visits them): each victim with health loses one to five hit points at
/// random; a victim that is not the player is removed when its health drops below one; every
/// message is removed.
pub fn combat(world: &mut SubWorld, messages: &Vec<(Entity, Entity)>, commands: &mut CommandBuffer)
    requires
        victims_ready(
            *old(world),
            messages@,
            messages@.len() as int,
        ),
    ensures
        exists|damages: Seq<i32>|
            {
                &&& damages.len() == messages@.len()
                &&& forall|k: int| 0 <= k < damages.len() ==> 1 <= #[trigger] damages[k] <= 5
                &&& queued(*final(commands)) == queued(*old(commands)) + #[trigger] combat_changes(
                    *old(world),
                    messages@,
                    damages,
                    damages.len() as int,
                )
                &&& forall|e: Entity|
                    #[trigger] health_of(*final(world), e) == health_after(
                        *old(world),
                        messages@,
                        damages,
                        damages.len() as int,
                        e,
                    )
            },
{
    let ghost w0 = *world;
    let ghost start = queued(*commands);
    let victims = messages;
    let n = victims.len();
    let ghost mut damages: Seq<i32> = Seq::empty();
    let mut i: usize = 0;
    while i < n
        invariant
            i <= n,
            n == victims@.len(),
            damages.len() == i,
            forall|k: int| 0 <= k < damages.len() ==> 1 <= #[trigger] damages[k] <= 5,
            victims_ready(w0, victims@, n as int),
            forall|e: Entity| #[trigger] reaches(*world, e) == reaches(w0, e),
            forall|e: Entity| #[trigger] shows_player(*world, e) == shows_player(w0, e),
            forall|e: Entity| #[trigger] health_of(*world, e) == health_after(w0, victims@, damages, i as int, e),
            forall|k: int|
                0 <= k < n && #[trigger] health_of(*world, victims@[k].1) is Some ==> health_of(
                    *world,
                    victims@[k].1,
                )->0.current >= i32::MIN + 5 * (n - i),
            queued(*commands) == start + combat_changes(w0, victims@, damages, i as int),
        decreases n - i,
    {
        let (message, victim) = victims[i];
        let player = is_player(world, victim);
        let ghost before = queued(*commands);
        let ghost old_health = health_of(*world, victim);
        let ghost w_before = *world;
        let ghost mut d: i32 = 1;
        match health(world, victim) {
            Some(h) => {
                let mut rng = new_rng();
                let damage = roll_dice(&mut rng, 1, 5);
                proof {
                    d = damage;
                }
                let new_health = Health { current: h.current - damage, max: h.max };
                set_health(world, victim, new_health);
                if new_health.current < 1 && !player {
                    queue_removal(commands, victim);
                }
            },
            None => {},
        }
        queue_removal(commands, message);
        proof {
            let next = damages.push(d);
            assert forall|e: Entity|
                #[trigger] health_after(w0, victims@, next, i as int, e) == health_after(
                    w0,
                    victims@,
                    damages,
                    i as int,
                    e,
                ) by {
                lemma_health_after_prefix(w0, victims@, damages, d, i as int, e);
            }
            lemma_changes_prefix(w0, victims@, damages, d, i as int);
            assert forall|e: Entity|
                #[trigger] health_of(*world, e) == health_after(w0, victims@, next, i + 1, e) by {
                assert(victims@[i as int].1 == victim);
                if e == victim && old_health is Some {
                } else {
                    assert(health_of(*world, e) == health_of(w_before, e));
                }
            }
            damages = next;
            assert(queued(*commands) =~= start + combat_changes(w0, victims@, damages, i + 1));
        }
        i = i + 1;
    }
}

/// Resolves the attack messages (each message's entity and its victim) as `combat` does when
/// every victim can be reached and every victim's health can take the attacks without
/// overflow, and says so; otherwise queues nothing, changes no health, and returns `false`.
pub fn try_combat(
    world: &mut SubWorld,
    messages: &Vec<(Entity, Entity)>,
    commands: &mut CommandBuffer,
) -> (resolved: bool)
    ensures
        resolved == victims_ready(
            *old(world),
            messages@,
            messages@.len() as int,
        ),
        !resolved ==> *final(commands) == *old(commands),
        !resolved ==> forall|e: Entity|
            #[trigger] health_of(*final(world), e) == health_of(*old(world), e),
        resolved ==> exists|damages: Seq<i32>|
            {
                &&& damages.len() == messages@.len()
                &&& forall|k: int| 0 <= k < damages.len() ==> 1 <= #[trigger] damages[k] <= 5
                &&& queued(*final(commands)) == queued(*old(commands)) + #[trigger] combat_changes(
                    *old(world),
                    messages@,
                    damages,
                    damages.len() as int,
                )
                &&& forall|e: Entity|
                    #[trigger] health_of(*final(world), e) == health_after(
                        *old(world),
                        messages@,
                        damages,
                        damages.len() as int,
                        e,
                    )
            },
{
    let ghost w0 = *world;
    let n = messages.len();
    let mut i: usize = 0;
    while i < n
        invariant
            i <= n,
            n == messages@.len(),
            forall|e: Entity| #[trigger] health_of(*world, e) == health_of(w0, e),
            forall|e: Entity| #[trigger] reaches(*world, e) == reaches(w0, e),
            forall|e: Entity| #[trigger] shows_player(*world, e) == shows_player(w0, e),
            w0 == *old(world),
            *commands == *old(commands),
            forall|k: int|
                0 <= k < i ==> reaches(w0, (#[trigger] messages@[k]).1) && (health_of(
                    w0,
                    messages@[k].1,
                ) is Some ==> health_of(w0, messages@[k].1)->0.current >= i32::MIN + 5 * n),
        decreases n - i,
    {
        let victim = messages[i].1;
        assert(reaches(*world, victim) == reaches(w0, victim));
        assert(health_of(*world, victim) == health_of(w0, victim));
        if !can_reach(world, victim) {
            assert(!reaches(w0, messages@[i as int].1));
            assert(!victims_ready(w0, messages@, n as int));
            return false;
        }
        match health(world, victim) {
            Some(h) => {
                let floor: i128 = i32::MIN as i128 + 5 * n as i128;
                if (h.current as i128) < floor {
                    assert(health_of(w0, messages@[i as int].1) is Some);
                    assert(!victims_ready(w0, messages@, n as int));
                    return false;
                }
            },
            None => {},
        }
        i = i + 1;
    }
    let ghost w1 = *world;
    combat(world, messages, commands);
    proof {
        assert forall|damages: Seq<i32>, e: Entity|
            #[trigger] health_after(w1, messages@, damages, damages.len() as int, e) == health_after(
                w0,
                messages@,
                damages,
                damages.len() as int,
                e,
            ) by {
            lemma_same_views(w1, w0, messages@, damages, damages.len() as int, e);
        }
        assert forall|damages: Seq<i32>|
            #[trigger] combat_changes(w1, messages@, damages, damages.len() as int) == combat_changes(
                w0,
                messages@,
                damages,
                damages.len() as int,
            ) by {
            lemma_same_changes(w1, w0, messages@, damages, damages.len() as int);
        }
    }
    true
}

/// Combat never removes the player: the only removals it queues are of messages, and of
/// messages that are not the player.
pub proof fn lemma_combat_spares_player(
    world: SubWorld,
    messages: Seq<(Entity, Entity)>,
    damages: Seq<i32>,
    k: int,
    player: Entity,
)
    requires
        shows_player(world, player),
        k <= messages.len(),
        forall|j: int| 0 <= j < messages.len() ==> (#[trigger] messages[j]).0 != player,
    ensures
        !combat_changes(world, messages, damages, k).contains(Queued::Remove { entity: player }),
    decreases k,
{
    if k > 0 {
        lemma_combat_spares_player(world, messages, damages, k - 1, player);
        let prev = combat_changes(world, messages, damages, k - 1);
        let message = messages[k - 1].0;
        let victim = messages[k - 1].1;
        let before = health_after(world, messages, damages, k - 1, victim);
        let after = health_after(world, messages, damages, k, victim);
        let killed = if before is Some && after->0.current < 1 && !shows_player(world, victim) {
            seq![Queued::Remove { entity: victim }]
        } else {
            Seq::empty()
        };
        let all = prev + killed.push(Queued::Remove { entity: message });
        assert(combat_changes(world, messages, damages, k) == all);
        if all.contains(Queued::Remove { entity: player }) {
            let w = choose|w: int| 0 <= w < all.len() && all[w] == Queued::Remove { entity: player };
            if w < prev.len() {
                assert(prev[w] == all[w]);
            }
        }
    }
}

/// Attack `j` of `messages` kills its victim: the victim is not the player, had health before
/// the attack, and has less than one hit point after it.
pub open spec fn attack_kills(
    world: SubWorld,
    messages: Seq<(Entity, Entity)>,
    damages: Seq<i32>,
    j: int,
) -> bool {
    let victim = messages[j].1;
    &&& !shows_player(world, victim)
    &&& health_after(world, messages, damages, j, victim) is Some
    &&& health_after(world, messages, damages, j + 1, victim)->0.current < 1
}

/// Combat queues removals and nothing else, and removes exactly the attack messages and the
/// victims that an attack killed: every removal is of a message or of a victim killed by one of
/// the attacks, every message is removed, and every killed victim is removed. A victim that is
/// not a message and that no attack brought below one hit point (the player among them) stays.
pub proof fn lemma_combat_removals(
    world: SubWorld,
    messages: Seq<(Entity, Entity)>,
    damages: Seq<i32>,
    k: int,
)
    requires
        0 <= k <= messages.len(),
    ensures
        forall|i: int|
            0 <= i < combat_changes(world, messages, damages, k).len() ==> (#[trigger] combat_changes(
                world,
                messages,
                damages,
                k,
            )[i]) is Remove,
        forall|e: Entity|
            #[trigger] combat_changes(world, messages, damages, k).contains(Queued::Remove { entity: e })
                ==> (exists|j: int| 0 <= j < k && (#[trigger] messages[j]).0 == e) || (exists|j: int|
                0 <= j < k && (#[trigger] messages[j]).1 == e && attack_kills(world, messages, damages, j)),
        forall|j: int|
            0 <= j < k ==> combat_changes(world, messages, damages, k).contains(
                Queued::Remove { entity: (#[trigger] messages[j]).0 },
            ),
        forall|j: int|
            0 <= j < k && #[trigger] attack_kills(world, messages, damages, j) ==> combat_changes(
                world,
                messages,
                damages,
                k,
            ).contains(Queued::Remove { entity: messages[j].1 }),
    decreases k,
{
    if k > 0 {
        lemma_combat_removals(world, messages, damages, k - 1);
        let prev = combat_changes(world, messages, damages, k - 1);
        let message = messages[k - 1].0;
        let victim = messages[k - 1].1;
        let before = health_after(world, messages, damages, k - 1, victim);
        let after = health_after(world, messages, damages, k, victim);
        let killed = if before is Some && after->0.current < 1 && !shows_player(world, victim) {
            seq![Queued::Remove { entity: victim }]
        } else {
            Seq::empty()
        };
        let all = prev + killed.push(Queued::Remove { entity: message });
        assert(combat_changes(world, messages, damages, k) == all);
        assert(attack_kills(world, messages, damages, k - 1) == (killed.len() == 1));
        assert forall|i: int| 0 <= i < all.len() implies (#[trigger] all[i]) is Remove by {
            if i < prev.len() {
                assert(all[i] == prev[i]);
            }
        }
        assert forall|e: Entity| #[trigger] all.contains(Queued::Remove { entity: e }) implies (exists|j: int|
            0 <= j < k && (#[trigger] messages[j]).0 == e) || (exists|j: int|
            0 <= j < k && (#[trigger] messages[j]).1 == e && attack_kills(world, messages, damages, j)) by {
            let w = choose|w: int| 0 <= w < all.len() && all[w] == Queued::Remove { entity: e };
            if w < prev.len() {
                assert(prev[w] == all[w]);
                assert(prev.contains(Queued::Remove { entity: e }));
            } else if w == all.len() - 1 {
                assert(messages[k - 1].0 == e);
            } else {
                assert(killed.len() == 1);
                assert(messages[k - 1].1 == e);
            }
        }
        assert forall|j: int| 0 <= j < k implies all.contains(
            Queued::Remove { entity: (#[trigger] messages[j]).0 },
        ) by {
            if j == k - 1 {
                assert(all[all.len() - 1] == Queued::Remove { entity: message });
            } else {
                assert(prev.contains(Queued::Remove { entity: messages[j].0 }));
                let w = choose|w: int| 0 <= w < prev.len() && prev[w] == Queued::Remove { entity: messages[j].0 };
                assert(all[w] == prev[w]);
            }
        }
        assert forall|j: int| 0 <= j < k && #[trigger] attack_kills(world, messages, damages, j) implies all.contains(
            Queued::Remove { entity: messages[j].1 },
        ) by {
            if j == k - 1 {
                assert(all[prev.len() as int] == Queued::Remove { entity: victim });
            } else {
                assert(prev.contains(Queued::Remove { entity: messages[j].1 }));
                let w = choose|w: int| 0 <= w < prev.len() && prev[w] == Queued::Remove { entity: messages[j].1 };
                assert(all[w] == prev[w]);
            }
        }
    }
}

/// How many of the first `k` attacks of `messages` are on `e`.
pub open spec fn hits_on(messages: Seq<(Entity, Entity)>, k: int, e: Entity) -> int
    decreases k,
{
    if k <= 0 {
        0
    } else {
        hits_on(messages, k - 1, e) + if messages[k - 1].1 == e {
            1int
        } else {
            0int
        }
    }
}

/// Attacks only take health away, between one and five hit points per attack: after the first
/// `k` attacks, an entity with health keeps its maximum and has lost at least one hit point and
/// at most five for each attack on it; an entity without health still has none.
pub proof fn lemma_combat_health_bounds(
    world: SubWorld,
    messages: Seq<(Entity, Entity)>,
    damages: Seq<i32>,
    k: int,
    e: Entity,
)
    requires
        0 <= k <= messages.len(),
        k <= damages.len(),
        forall|j: int| 0 <= j < k ==> 1 <= #[trigger] damages[j] <= 5,
        health_of(world, e) is Some ==> health_of(world, e)->0.current >= i32::MIN + 5 * k,
    ensures
        health_of(world, e) is None ==> health_after(world, messages, damages, k, e) is None,
        health_of(world, e) is Some ==> {
            let h0 = health_of(world, e)->0;
            let h = health_after(world, messages, damages, k, e);
            &&& h is Some
            &&& h->0.max == h0.max
            &&& h0.current - 5 * hits_on(messages, k, e) <= h->0.current <= h0.current - hits_on(
                messages,
                k,
                e,
            )
        },
    decreases k,
{
    if k > 0 {
        lemma_combat_health_bounds(world, messages, damages, k - 1, e);
        assert(1 <= damages[k - 1] <= 5);
        assert(0 <= hits_on(messages, k - 1, e) <= k - 1) by {
            lemma_hits_on_range(messages, k - 1, e);
        }
    }
}

/// At most `k` of the first `k` attacks are on any one entity.
proof fn lemma_hits_on_range(messages: Seq<(Entity, Entity)>, k: int, e: Entity)
    requires
        0 <= k,
    ensures
        0 <= hits_on(messages, k, e) <= k,
    decreases k,
{
    if k > 0 {
        lemma_hits_on_range(messages, k - 1, e);
    }
}

/// Two views of the world that agree on every health give the same healths after attacks.
proof fn lemma_same_views(
    w1: SubWorld,
    w2: SubWorld,
    messages: Seq<(Entity, Entity)>,
    damages: Seq<i32>,
    k: int,
    e: Entity,
)
    requires
        forall|x: Entity| #[trigger] health_of(w1, x) == health_of(w2, x),
    ensures
        health_after(w1, messages, damages, k, e) == health_after(w2, messages, damages, k, e),
    decreases k,
{
    if k > 0 {
        lemma_same_views(w1, w2, messages, damages, k - 1, e);
    } else {
        assert(health_of(w1, e) == health_of(w2, e));
    }
}

/// Two views of the world that agree on every health and on the player give the same changes.
proof fn lemma_same_changes(
    w1: SubWorld,
    w2: SubWorld,
    messages: Seq<(Entity, Entity)>,
    damages: Seq<i32>,
    k: int,
)
    requires
        forall|x: Entity| #[trigger] health_of(w1, x) == health_of(w2, x),
        forall|x: Entity| #[trigger] shows_player(w1, x) == shows_player(w2, x),
    ensures
        combat_changes(w1, messages, damages, k) == combat_changes(w2, messages, damages, k),
    decreases k,
{
    if k > 0 {
        lemma_same_changes(w1, w2, messages, damages, k - 1);
        let victim = messages[k - 1].1;
        lemma_same_views(w1, w2, messages, damages, k - 1, victim);
        lemma_same_views(w1, w2, messages, damages, k, victim);
        assert(shows_player(w1, victim) == shows_player(w2, victim));
    }
}

/// The healths after the first `k` attacks do not depend on the damages of later attacks.
proof fn lemma_health_after_prefix(
    world: SubWorld,
    messages: Seq<(Entity, Entity)>,
    damages: Seq<i32>,
    d: i32,
    k: int,
    e: Entity,
)
    requires
        k <= damages.len(),
    ensures
        health_after(world, messages, damages.push(d), k, e) == health_after(
            world,
            messages,
            damages,
            k,
            e,
        ),
    decreases k,
{
    if k > 0 {
        lemma_health_after_prefix(world, messages, damages, d, k - 1, e);
        assert(damages.push(d)[k - 1] == damages[k - 1]);
    }
}

/// What the first `k` attacks queue does not depend on the damages of later attacks.
proof fn lemma_changes_prefix(
    world: SubWorld,
    messages: Seq<(Entity, Entity)>,
    damages: Seq<i32>,
    d: i32,
    k: int,
)
    requires
        k <= damages.len(),
    ensures
        combat_changes(world, messages, damages.push(d), k) == combat_changes(
            world,
            messages,
            damages,
            k,
        ),
    decreases k,
{
    if k > 0 {
        lemma_changes_prefix(world, messages, damages, d, k - 1);
        let victim = messages[k - 1].1;
        lemma_health_after_prefix(world, messages, damages, d, k - 1, victim);
        lemma_health_after_prefix(world, messages, damages, d, k, victim);
    }
}

} // verus!
