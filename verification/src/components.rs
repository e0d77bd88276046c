use vstd::prelude::*;

use crate::geometry::Point;
use legion::Entity;
use std::collections::HashSet;

verus! {

/// A color as red, green and blue bytes.
#[derive(Clone, Copy, Debug, PartialEq, Eq, Structural)]
pub struct Rgb {
    pub r: u8,
    pub g: u8,
    pub b: u8,
}

impl Rgb {
    pub fn white() -> (c: Rgb)
        ensures
            c.r == 255 && c.g == 255 && c.b == 255,
    {
        Rgb { r: 255, g: 255, b: 255 }
    }

    pub fn black() -> (c: Rgb)
        ensures
            c.r == 0 && c.g == 0 && c.b == 0,
    {
        Rgb { r: 0, g: 0, b: 0 }
    }

    pub open spec fn is_white(self) -> bool {
        self.r == 255 && self.g == 255 && self.b == 255
    }

    pub open spec fn is_black(self) -> bool {
        self.r == 0 && self.g == 0 && self.b == 0
    }
}

/// A foreground and a background color.
#[derive(Clone, Copy, Debug, PartialEq, Eq, Structural)]
pub struct ColorPair {
    pub fg: Rgb,
    pub bg: Rgb,
}

/// How an entity is drawn: its colors and its glyph in code page 437.
#[derive(Clone, Copy, Debug, PartialEq, Eq, Structural)]
pub struct Render {
    pub color: ColorPair,
    pub glyph: u16,
}

/// Marks the player's entity.
#[derive(Clone, Copy, Debug, PartialEq, Eq, Structural)]
pub struct Player;

/// Marks a monster.
#[derive(Clone, Copy, Debug, PartialEq, Eq, Structural)]
pub struct Enemy;

/// Marks the amulet that wins the game.
#[derive(Clone, Copy, Debug, PartialEq, Eq, Structural)]
pub struct AmuletOfYala;

/// Marks something that can be picked up.
#[derive(Clone, Copy, Debug, PartialEq, Eq, Structural)]
pub struct Item;

/// Current and maximum hit points.
#[derive(Clone, Copy, Debug, PartialEq, Eq, Structural)]
pub struct Health {
    pub current: i32,
    pub max: i32,
}

/// An entity's name.
#[derive(Clone, Debug, PartialEq, Eq)]
pub struct Name(pub String);

/// How a monster moves.
#[derive(Clone, Copy, Debug, PartialEq, Eq, Structural)]
pub enum MonsterMovementType {
    Drunk,
    Chasing,
}

/// A message: `entity` wants to move to `destination`.
#[derive(Clone, Copy, Debug)]
pub struct WantsToMove {
    pub entity: Entity,
    pub destination: Point,
}

/// A message: `attacker` wants to attack `victim`.
#[derive(Clone, Copy, Debug)]
pub struct WantsToAttack {
    pub attacker: Entity,
    pub victim: Entity,
}

/// The item is carried by the entity.
#[derive(Clone, Copy, Debug)]
pub struct Carried(pub Entity);

/// What an entity can see, and whether that needs recomputing.
#[derive(Debug)]
pub struct FieldOfView {
    pub visible_tiles: HashSet<Point>,
    pub radius: i32,
    pub is_dirty: bool,
}

impl FieldOfView {
    /// A field of view of the given radius that sees nothing yet and must be computed.
    pub fn new(radius: i32) -> (f: FieldOfView)
        ensures
            f.visible_tiles@.is_empty(),
            f.radius == radius,
            f.is_dirty,
    {
        FieldOfView { visible_tiles: HashSet::new(), radius, is_dirty: true }
    }

    /// A field of view of the same radius that sees nothing yet and must be recomputed.
    pub fn clone_dirty(&self) -> (f: FieldOfView)
        ensures
            f.visible_tiles@.is_empty(),
            f.radius == self.radius,
            f.is_dirty,
    {
        FieldOfView::new(self.radius)
    }
}

} // verus!
