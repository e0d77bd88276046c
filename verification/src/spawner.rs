use vstd::prelude::*;

use crate::components::{
    AmuletOfYala, ColorPair, Enemy, Item, Health, MonsterMovementType, Name, Player, Render, Rgb,
};
use crate::geometry::Point;
use crate::random::{new_rng, roll_dice};
use bracket_lib::prelude::RandomNumberGenerator;
use legion::World;
use vstd::multiset::Multiset;

verus! {

broadcast use vstd::string::group_string_axioms;

/// An entity that the library puts into the world, as the components it gives it.
pub enum Spawned {
    /// The player: marked `Player`, with a position, a look and health.
    Player { pos: Point, render: Render, health: Health },
    /// A monster: marked `Enemy`, with a position, a look, a way of moving, health and a name.
    Monster { pos: Point, render: Render, movement: MonsterMovementType, health: Health, name: Name },
    /// The amulet: marked `Item` and `AmuletOfYala`, with a position, a look and a name.
    Amulet { pos: Point, render: Render, name: Name },
}

/// The entities the library has put into the world, each as the components it was given.
pub uninterp spec fn spawned(world: World) -> Multiset<Spawned>;

/// The code page 437 glyph that `bracket-lib` gives a character.
pub uninterp spec fn cp437(c: char) -> u16;

/// Calls `bracket_lib::prelude::to_cp437`, a table from characters to code page 437 glyphs.
/// Claimed: the result is the named one, and a printable ASCII character maps to its own code.
#[verifier::external_body]
pub(crate) fn to_cp437(c: char) -> (g: u16)
    ensures
        g == cp437(c),
        32 <= (c as u32) <= 126 ==> g == c as u32,
{
    bracket_lib::prelude::to_cp437(c)
}

/// Calls `World::default`, which makes a world that holds no entity.
#[verifier::external_body]
fn empty_world() -> (world: World)
    ensures
        spawned(world) == Multiset::<Spawned>::empty(),
{
    World::default()
}

/// Calls `World::push` with the player's components, which adds one new entity holding them.
#[verifier::external_body]
fn push_player(world: &mut World, pos: Point, render: Render, health: Health)
    ensures
        spawned(*final(world)) == spawned(*old(world)).insert(
            Spawned::Player { pos, render, health },
        ),
{
    world.push((Player, pos, render, health));
}

/// Calls `World::push` with a monster's components, which adds one new entity holding them.
#[verifier::external_body]
fn push_monster(
    world: &mut World,
    pos: Point,
    render: Render,
    movement: MonsterMovementType,
    health: Health,
    name: Name,
)
    ensures
        spawned(*final(world)) == spawned(*old(world)).insert(
            Spawned::Monster { pos, render, movement, health, name },
        ),
{
    world.push((Enemy, pos, render, movement, health, name));
}

/// Calls `World::push` with the amulet's components, which adds one new entity holding them.
#[verifier::external_body]
fn push_amulet(world: &mut World, pos: Point, render: Render, name: Name)
    ensures
        spawned(*final(world)) == spawned(*old(world)).insert(Spawned::Amulet { pos, render, name }),
{
    world.push((Item, AmuletOfYala, pos, render, name));
}

/// The look of the library's entities: the glyph `glyph`, white on black.
pub open spec fn white_on_black(render: Render, glyph: u16) -> bool {
    render.color.fg.is_white() && render.color.bg.is_black()
        && render.glyph == glyph
}

/// The player as spawned at `pos`: an `@`, with twenty of twenty hit points.
pub open spec fn is_player_at(s: Spawned, pos: Point) -> bool {
    s matches Spawned::Player { pos: p, render, health } && p == pos && white_on_black(render, 64)
        && health.current == 20 && health.max == 20
}

/// The amulet as spawned at `pos`: a `|` named "Amulet of Yala".
pub open spec fn is_amulet_at(s: Spawned, pos: Point) -> bool {
    s matches Spawned::Amulet { pos: p, render, name } && p == pos && white_on_black(render, 124)
        && name.0@ == "Amulet of Yala"@
}

/// How a goblin moves, given a roll of one six-sided die: drunkenly on a one, else chasing.
pub open spec fn goblin_moves(roll: i32) -> MonsterMovementType {
    if roll == 1 {
        MonsterMovementType::Drunk
    } else {
        MonsterMovementType::Chasing
    }
}

/// A goblin as spawned at `pos`: a `g` named "Goblin" with three of three hit points.
pub open spec fn is_goblin_at(s: Spawned, pos: Point) -> bool {
    s matches Spawned::Monster { pos: p, render, movement, health, name } && p == pos
        && white_on_black(render, 103) && health.current == 3 && health.max == 3 && name.0@
        == "Goblin"@
}

/// An orc as spawned at `pos`: a chasing `o` named "Orc" with seven of seven hit points.
pub open spec fn is_orc_at(s: Spawned, pos: Point) -> bool {
    s matches Spawned::Monster { pos: p, render, movement, health, name } && p == pos
        && white_on_black(render, 111) && movement == MonsterMovementType::Chasing && health.current
        == 7 && health.max == 7 && name.0@ == "Orc"@
}

/// A new world, with nothing in it yet.
pub fn new_world() -> (world: World)
    ensures
        spawned(world) == Multiset::<Spawned>::empty(),
{
    empty_world()
}

/// Puts the player into the world at `pos`.
pub fn spawn_player(world: &mut World, pos: Point)
    ensures
        exists|s: Spawned|
            #[trigger] is_player_at(s, pos) && spawned(*final(world)) == spawned(*old(world)).insert(s),
{
    let render = Render {
        color: ColorPair { fg: Rgb::white(), bg: Rgb::black() },
        glyph: to_cp437('@'),
    };
    push_player(world, pos, render, Health { current: 20, max: 20 });
    assert(is_player_at(Spawned::Player { pos, render, health: Health { current: 20, max: 20 } }, pos));
}

/// Puts the Amulet of Yala into the world at `pos`.
pub fn spawn_amulet(world: &mut World, pos: Point)
    ensures
        exists|s: Spawned|
            #[trigger] is_amulet_at(s, pos) && spawned(*final(world)) == spawned(*old(world)).insert(s),
{
    let render = Render {
        color: ColorPair { fg: Rgb::white(), bg: Rgb::black() },
        glyph: to_cp437('|'),
    };
    let name = "Amulet of Yala".to_string();
    let ghost s = Spawned::Amulet { pos, render, name: Name(name) };
    push_amulet(world, pos, render, Name(name));
    assert(is_amulet_at(s, pos));
}

/// How a goblin moves, given a roll of one six-sided die.
pub fn goblin_movement(roll: i32) -> (m: MonsterMovementType)
    ensures
        m == goblin_moves(roll),
{
    match roll {
        1 => MonsterMovementType::Drunk,
        _ => MonsterMovementType::Chasing,
    }
}

/// A goblin's hit points, name, glyph and way of moving, rolled with a fresh generator.
fn goblin() -> (r: (i32, String, u16, MonsterMovementType))
    ensures
        r.0 == 3,
        r.1@ == "Goblin"@,
        r.2 == 103,
        exists|roll: i32| 1 <= roll <= 6 && r.3 == #[trigger] goblin_moves(roll),
{
    let mut rng = new_rng();
    let roll = roll_dice(&mut rng, 1, 6);
    let name = "Goblin".to_string();
    (3, name, to_cp437('g'), goblin_movement(roll))
}

/// An orc's hit points, name, glyph and way of moving.
fn orc() -> (r: (i32, String, u16, MonsterMovementType))
    ensures
        r.0 == 7,
        r.1@ == "Orc"@,
        r.2 == 111,
        r.3 == MonsterMovementType::Chasing,
{
    let name = "Orc".to_string();
    (7, name, to_cp437('o'), MonsterMovementType::Chasing)
}

/// The kinds of monster.
#[derive(Clone, Copy, Debug, PartialEq, Eq, Structural)]
pub enum MonsterKind {
    Goblin,
    Orc,
}

/// The kind of monster that a roll of one ten-sided die spawns: a goblin on one to six, else
/// an orc.
pub open spec fn kind_for_roll(roll: i32) -> MonsterKind {
    if 1 <= roll <= 6 {
        MonsterKind::Goblin
    } else {
        MonsterKind::Orc
    }
}

/// `s` is a monster of kind `kind` spawned at `pos`.
pub open spec fn is_monster_at(s: Spawned, kind: MonsterKind, pos: Point) -> bool {
    match kind {
        MonsterKind::Goblin => is_goblin_at(s, pos),
        MonsterKind::Orc => is_orc_at(s, pos),
    }
}

/// The kind of monster that a roll of one ten-sided die spawns.
pub fn monster_kind(roll: i32) -> (k: MonsterKind)
    ensures
        k == kind_for_roll(roll),
{
    match roll {
        1..=6 => MonsterKind::Goblin,
        _ => MonsterKind::Orc,
    }
}

/// Puts the monster that the ten-sided roll `roll` calls for into the world at `pos`: a goblin
/// (which moves drunkenly on one roll in six of its own) on one to six, else an orc.
pub fn spawn_rolled_monster(world: &mut World, roll: i32, pos: Point)
    ensures
        exists|s: Spawned|
            #[trigger] spawned(*final(world)) == spawned(*old(world)).insert(s) && is_monster_at(
                s,
                kind_for_roll(roll),
                pos,
            ),
{
    let (hp, name, glyph, movement) = match monster_kind(roll) {
        MonsterKind::Goblin => goblin(),
        MonsterKind::Orc => orc(),
    };
    let render = Render { color: ColorPair { fg: Rgb::white(), bg: Rgb::black() }, glyph };
    let health = Health { current: hp, max: hp };
    let ghost s = Spawned::Monster { pos, render, movement, health, name: Name(name) };
    push_monster(world, pos, render, movement, health, Name(name));
    assert(is_monster_at(s, kind_for_roll(roll), pos));
}

/// Puts a monster into the world at `pos`: rolls one ten-sided die on `rng` and spawns what the
/// roll calls for (see `spawn_rolled_monster`). Returns the roll.
pub fn spawn_monster(world: &mut World, rng: &mut RandomNumberGenerator, pos: Point) -> (roll: i32)
    ensures
        1 <= roll <= 10,
        exists|s: Spawned|
            #[trigger] spawned(*final(world)) == spawned(*old(world)).insert(s) && is_monster_at(
                s,
                kind_for_roll(roll),
                pos,
            ),
        exists|r: i32, s: Spawned|
            1 <= r <= 10 && #[trigger] spawned(*final(world)) == spawned(*old(world)).insert(s)
                && is_monster_at(s, kind_for_roll(r), pos),
{
    let roll = roll_dice(rng, 1, 10);
    spawn_rolled_monster(world, roll, pos);
    roll
}

/// A goblin moves drunkenly exactly when its six-sided roll is a one, and otherwise chases.
pub proof fn lemma_goblin_drunk_on_one(roll: i32)
    ensures
        (goblin_moves(roll) == MonsterMovementType::Drunk) == (roll == 1),
        roll != 1 ==> goblin_moves(roll) == MonsterMovementType::Chasing,
{
}

/// What a ten-sided roll spawns: on one to six a goblin, with three of three hit points and
/// named "Goblin"; on seven to ten an orc, with seven of seven hit points, named "Orc", that
/// chases the player. Either stands at the given place.
pub proof fn lemma_roll_decides_monster(s: Spawned, roll: i32, pos: Point)
    requires
        1 <= roll <= 10,
        is_monster_at(s, kind_for_roll(roll), pos),
    ensures
        s matches Spawned::Monster { pos: p, health, name, movement, .. } && p == pos && (roll <= 6
            ==> health == Health { current: 3, max: 3 } && name.0@ == "Goblin"@) && (7 <= roll
            ==> health == Health { current: 7, max: 7 } && name.0@ == "Orc"@ && movement
            == MonsterMovementType::Chasing),
{
}

/// `s` is a monster spawned at `pos`, of the kind that some roll of one ten-sided die calls for.
pub open spec fn is_rolled_monster_at(s: Spawned, pos: Point) -> bool {
    exists|roll: i32| 1 <= roll <= 10 && is_monster_at(s, kind_for_roll(roll), pos)
}

/// `added[k]` is a monster spawned at `spawns[k]` (see `is_rolled_monster_at`), for each `k`.
pub open spec fn are_monsters_at(added: Seq<Spawned>, spawns: Seq<Point>) -> bool {
    &&& added.len() == spawns.len()
    &&& forall|k: int| 0 <= k < added.len() ==> is_rolled_monster_at(#[trigger] added[k], spawns[k])
}

/// `added[k]` is a monster spawned at `spawns[k]` of the kind that the ten-sided roll
/// `rolls[k]` calls for, for each `k`.
pub open spec fn are_monsters_rolled(added: Seq<Spawned>, rolls: Seq<i32>, spawns: Seq<Point>) -> bool {
    &&& added.len() == spawns.len()
    &&& rolls.len() == spawns.len()
    &&& forall|k: int|
        0 <= k < added.len() ==> 1 <= #[trigger] rolls[k] <= 10 && is_monster_at(
            added[k],
            kind_for_roll(rolls[k]),
            spawns[k],
        )
}

/// Puts a monster into the world at each of `spawns`, in order, each rolled on `rng` as
/// `spawn_monster` does.
/// Returns the roll made for each spawn.
pub fn spawn_monsters(
    world: &mut World,
    rng: &mut RandomNumberGenerator,
    spawns: &Vec<Point>,
) -> (rolls: Vec<i32>)
    ensures
        exists|added: Seq<Spawned>|
            #[trigger] are_monsters_at(added, spawns@) && spawned(*final(world)) == spawned(
                *old(world),
            ).add(added.to_multiset()),
        rolls@.len() == spawns@.len(),
        exists|added: Seq<Spawned>|
            #[trigger] are_monsters_rolled(added, rolls@, spawns@) && spawned(*final(world)) == spawned(
                *old(world),
            ).add(added.to_multiset()),
{
    let mut rolls: Vec<i32> = Vec::new();
    let ghost mut added: Seq<Spawned> = Seq::empty();
    let mut i: usize = 0;
    proof {
        broadcast use vstd::seq_lib::group_to_multiset_ensures;
        assert(spawned(*world) =~= spawned(*old(world)).add(added.to_multiset()));
    }
    while i < spawns.len()
        invariant
            i <= spawns@.len(),
            added.len() == i,
            spawned(*world) == spawned(*old(world)).add(added.to_multiset()),
            forall|k: int| 0 <= k < added.len() ==> is_rolled_monster_at(#[trigger] added[k], spawns@[k]),
            rolls@.len() == i,
            forall|k: int|
                0 <= k < added.len() ==> 1 <= #[trigger] rolls@[k] <= 10 && is_monster_at(
                    added[k],
                    kind_for_roll(rolls@[k]),
                    spawns@[k],
                ),
        decreases spawns@.len() - i,
    {
        let ghost before = spawned(*world);
        let roll = spawn_monster(world, rng, spawns[i]);
        rolls.push(roll);
        proof {
            broadcast use vstd::seq_lib::group_to_multiset_ensures;
            let s = choose|s: Spawned|
                #[trigger] spawned(*world) == before.insert(s) && is_monster_at(
                    s,
                    kind_for_roll(roll),
                    spawns@[i as int],
                );
            let old_added = added;
            added = added.push(s);
            assert forall|k: int| 0 <= k < added.len() implies 1 <= #[trigger] rolls@[k] <= 10
                && is_monster_at(added[k], kind_for_roll(rolls@[k]), spawns@[k]) by {
                if k < i {
                    assert(added[k] == old_added[k]);
                }
            }
            assert(added.to_multiset() =~= old_added.to_multiset().insert(s));
            assert(spawned(*world) =~= spawned(*old(world)).add(added.to_multiset()));
            assert forall|k: int| 0 <= k < added.len() implies is_rolled_monster_at(
                #[trigger] added[k],
                spawns@[k],
            ) by {
                if k < i {
                    assert(added[k] == old_added[k]);
                } else {
                    assert(is_monster_at(added[k], kind_for_roll(roll), spawns@[k]));
                }
            }
        }
        i = i + 1;
    }
    assert(are_monsters_at(added, spawns@));
    assert(are_monsters_rolled(added, rolls@, spawns@));
    rolls
}

} // verus!
