//! Attribute ("component") records that entities can own, and the turn-state
//! enum of the scheduler.

use vstd::prelude::*;
use crate::world::Entity;

verus! {

/// Clamp `v` into the inclusive range `[l, u]`.
pub open spec fn spec_clamp(l: int, v: int, u: int) -> int {
    if v < l {
        l
    } else if v > u {
        u
    } else {
        v
    }
}

/// Clamp `v` into the inclusive range `[l, u]`.
pub fn range(l: i32, v: i32, u: i32) -> (r: i32)
    requires
        l <= u,
    ensures
        r == spec_clamp(l as int, v as int, u as int),
{
    if v < l {
        l
    } else if v > u {
        u
    } else {
        v
    }
}

/// Integer grid coordinates.
#[derive(Clone, Copy, PartialEq, Eq, Structural, Debug, Hash)]
pub struct Position {
    pub x: i32,
    pub y: i32,
}

/// The Manhattan (taxicab) distance between two positions, used only for
/// deterministic tie-breaking, never for spatial correctness.
pub open spec fn spec_manhattan_dist(p: Position, q: Position) -> int {
    abs_int(q.x - p.x) + abs_int(q.y - p.y)
}

pub open spec fn abs_int(v: int) -> int {
    if v < 0 {
        -v
    } else {
        v
    }
}

/// The Manhattan (taxicab) distance between two positions.
pub fn manhattan_dist(p: &Position, q: &Position) -> (d: i32)
    requires
        -16384 <= p.x <= 16384,
        -16384 <= p.y <= 16384,
        -16384 <= q.x <= 16384,
        -16384 <= q.y <= 16384,
    ensures
        d == spec_manhattan_dist(*p, *q),
{
    let dx = if q.x >= p.x {
        q.x - p.x
    } else {
        p.x - q.x
    };
    let dy = if q.y >= p.y {
        q.y - p.y
    } else {
        p.y - q.y
    };
    dx + dy
}

/// Health, attack and defense values of a combat-capable entity.
///
/// The store-wide invariant keeps every field in `[0, STAT_BOUND]` and
/// `hp <= max_hp`.
#[derive(Clone, Copy, PartialEq, Eq, Structural, Debug)]
pub struct CombatStats {
    pub max_hp: i32,
    pub hp: i32,
    pub defense: i32,
    pub power: i32,
}

/// Upper bound on every `CombatStats` field and every healing amount,
/// generous enough for any game content while keeping all damage arithmetic
/// safely inside `i32`.
pub const STAT_BOUND: i32 = 1000000;

impl CombatStats {
    /// Field bounds that every stored `CombatStats` record satisfies.
    pub open spec fn wf(self) -> bool {
        0 <= self.hp <= self.max_hp <= STAT_BOUND && 0 <= self.defense <= STAT_BOUND && 0
            <= self.power <= STAT_BOUND
    }
}

/// A transient intent attribute: the owner wants to melee-attack `target`
/// this tick.  Consumed by the melee resolution stage within the same tick.
#[derive(Clone, Copy, PartialEq, Eq, Structural, Debug)]
pub struct WantsToMelee {
    pub target: Entity,
}

/// Accumulator attribute: every damage source of the current tick appends an
/// amount; the damage application stage consumes the whole list at once.
#[derive(Clone, Debug)]
pub struct SufferDamage {
    pub amount: Vec<i32>,
}

impl SufferDamage {
    /// Record `amount` incoming damage against `victim`: append to the
    /// victim's accumulator, creating one if absent.
    pub fn new_damage(store: &mut Vec<Option<SufferDamage>>, victim: Entity, amount: i32)
        requires
            victim < old(store)@.len(),
        ensures
            final(store)@.len() == old(store)@.len(),
            final(store)@[victim as int] matches Some(d) && d.amount@ == (match old(
                store,
            )@[victim as int] {
                Some(p) => p.amount@,
                None => Seq::<i32>::empty(),
            }).push(amount),
            forall|e: int|
                0 <= e < old(store)@.len() && e != victim ==> final(store)@[e] == old(store)@[e],
    {
        let slot = &mut store[victim];
        match slot {
            Some(suffering) => {
                suffering.amount.push(amount);
            },
            None => {
                let mut amounts: Vec<i32> = Vec::new();
                amounts.push(amount);
                *slot = Some(SufferDamage { amount: amounts });
            },
        }
    }
}

/// Color in 8-bit channels; a plain stand-in for the presentation layer's
/// float color type.
#[derive(Clone, Copy, PartialEq, Eq, Structural, Debug)]
pub struct Rgb {
    pub r: u8,
    pub g: u8,
    pub b: u8,
}

/// Passive descriptive attribute read only by the presentation collaborator.
#[derive(Clone, Copy, PartialEq, Eq, Structural, Debug)]
pub struct Renderable {
    pub glyph: u16,
    pub fg: Rgb,
    pub bg: Rgb,
    pub render_order: i32,
}

/// The set of tiles an actor currently sees, its field-of-view radius, and a
/// dirty flag that forces recomputation on the next visibility pass.
#[derive(Clone, Debug)]
pub struct Viewshed {
    pub visible_tiles: Vec<Position>,
    pub range: i32,
    pub dirty: bool,
}

/// Human-readable entity name, used for log entries.
#[derive(Clone, Debug)]
pub struct Name {
    pub name: String,
}

/// Tag: this entity makes its tile impassable.
#[derive(Clone, Copy, PartialEq, Eq, Structural, Debug)]
pub struct BlocksTile {}

/// Tag: this entity is the player.
#[derive(Clone, Copy, PartialEq, Eq, Structural, Debug)]
pub struct Player {}

/// Tag: this entity is a monster driven by the behavior system.
#[derive(Clone, Copy, PartialEq, Eq, Structural, Debug)]
pub struct Monster {}

/// Tag: this entity can be picked up.
#[derive(Clone, Copy, PartialEq, Eq, Structural, Debug)]
pub struct Item {}

/// A drinkable item restoring up to `heal_amount` hit points.
#[derive(Clone, Copy, PartialEq, Eq, Structural, Debug)]
pub struct Potion {
    pub heal_amount: i32,
}

/// Attribute: this item sits in `owner`'s backpack rather than on the map.
#[derive(Clone, Copy, PartialEq, Eq, Structural, Debug)]
pub struct InBackpack {
    pub owner: Entity,
}

/// A transient intent attribute: `collected_by` wants to pick up `item`.
#[derive(Clone, Copy, PartialEq, Eq, Structural, Debug)]
pub struct WantsToPickupItem {
    pub collected_by: Entity,
    pub item: Entity,
}

/// A transient intent attribute: the owner wants to drink `item`.
#[derive(Clone, Copy, PartialEq, Eq, Structural, Debug)]
pub struct WantsToConsumeItem {
    pub item: Entity,
}

/// The turn scheduler's explicit state machine value.
#[derive(Clone, Copy, PartialEq, Eq, Structural, Debug)]
pub enum RunState {
    AwaitingInput,
    PreRun,
    PlayerTurn,
    MonsterTurn,
}

} // verus!
