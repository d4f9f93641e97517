//! Worlds on the map. Five have names; the rest are placeholders named by sector
//! code until Alva writes them into the lore. Positions are world units. Flavor
//! text belongs to the lore, so none lives here.
use vstd::prelude::*;

use crate::economy::Resources;
use crate::geometry::{bounded, on_map, Point, SCALE};
use crate::world::Side;

verus! {

/// How many worlds the map holds: two per sector.
pub const PLANET_COUNT: usize = 26;
/// Index of Arcadia, the home world, in the planet table.
pub const HOME: usize = 2;

pub struct Planet {
    pub name: &'static str,
    pub position: Point,
    /// Who holds it when the game starts. `None` is unclaimed.
    pub owner: Option<Side>,
    /// Farlight's shipyard is here.
    pub home: bool,
    /// Turns a ship must hold within range to secure it.
    pub secure_turns: u32,
    /// Influence lost per turn while no ship holds in range.
    pub decay: u32,
    /// Paid every turn while held and uncontested.
    pub yield_per_turn: Resources,
}

/// The planet table. Two worlds per sector, at least 300 units apart: two to
/// three scout moves. Ownership is provisional: the west is free, the east is
/// Dominion-held, the middle is contested.
pub open spec fn planet_spec(i: int) -> Planet {
    if i == 0 {
        Planet { name: "L1-a", position: Point { x: 225000000000i64, y: 188000000000i64 }, owner: None, home: false, secure_turns: 4, decay: 1, yield_per_turn: Resources { alloys: 2, electronics: 0 } }
    } else if i == 1 {
        Planet { name: "L1-b", position: Point { x: 700000000000i64, y: 175000000000i64 }, owner: None, home: false, secure_turns: 3, decay: 1, yield_per_turn: Resources { alloys: 1, electronics: 1 } }
    } else if i == 2 {
        Planet { name: "Arcadia", position: Point { x: 350000000000i64, y: 955000000000i64 }, owner: Some(Side::Player), home: true, secure_turns: 3, decay: 1, yield_per_turn: Resources { alloys: 3, electronics: 1 } }
    } else if i == 3 {
        Planet { name: "L2-b", position: Point { x: 175000000000i64, y: 1275000000000i64 }, owner: None, home: false, secure_turns: 3, decay: 1, yield_per_turn: Resources { alloys: 2, electronics: 0 } }
    } else if i == 4 {
        Planet { name: "Haven", position: Point { x: 575000000000i64, y: 750000000000i64 }, owner: None, home: false, secure_turns: 4, decay: 1, yield_per_turn: Resources { alloys: 2, electronics: 1 } }
    } else if i == 5 {
        Planet { name: "Verdant", position: Point { x: 950000000000i64, y: 1025000000000i64 }, owner: None, home: false, secure_turns: 5, decay: 2, yield_per_turn: Resources { alloys: 3, electronics: 0 } }
    } else if i == 6 {
        Planet { name: "L4-a", position: Point { x: 200000000000i64, y: 1700000000000i64 }, owner: None, home: false, secure_turns: 3, decay: 1, yield_per_turn: Resources { alloys: 1, electronics: 0 } }
    } else if i == 7 {
        Planet { name: "L4-b", position: Point { x: 675000000000i64, y: 1788000000000i64 }, owner: None, home: false, secure_turns: 4, decay: 2, yield_per_turn: Resources { alloys: 2, electronics: 1 } }
    } else if i == 8 {
        Planet { name: "L5-a", position: Point { x: 650000000000i64, y: 1450000000000i64 }, owner: None, home: false, secure_turns: 3, decay: 1, yield_per_turn: Resources { alloys: 2, electronics: 0 } }
    } else if i == 9 {
        Planet { name: "L5-b", position: Point { x: 1175000000000i64, y: 1600000000000i64 }, owner: None, home: false, secure_turns: 4, decay: 1, yield_per_turn: Resources { alloys: 3, electronics: 0 } }
    } else if i == 10 {
        Planet { name: "M1-a", position: Point { x: 1275000000000i64, y: 188000000000i64 }, owner: None, home: false, secure_turns: 4, decay: 1, yield_per_turn: Resources { alloys: 2, electronics: 0 } }
    } else if i == 11 {
        Planet { name: "M1-b", position: Point { x: 1750000000000i64, y: 325000000000i64 }, owner: None, home: false, secure_turns: 5, decay: 2, yield_per_turn: Resources { alloys: 3, electronics: 1 } }
    } else if i == 12 {
        Planet { name: "Cinder", position: Point { x: 1850000000000i64, y: 825000000000i64 }, owner: Some(Side::Dominion), home: false, secure_turns: 5, decay: 2, yield_per_turn: Resources { alloys: 3, electronics: 1 } }
    } else if i == 13 {
        Planet { name: "M2-b", position: Point { x: 1300000000000i64, y: 700000000000i64 }, owner: None, home: false, secure_turns: 4, decay: 1, yield_per_turn: Resources { alloys: 2, electronics: 0 } }
    } else if i == 14 {
        Planet { name: "M3-a", position: Point { x: 1575000000000i64, y: 1550000000000i64 }, owner: None, home: false, secure_turns: 3, decay: 1, yield_per_turn: Resources { alloys: 1, electronics: 1 } }
    } else if i == 15 {
        Planet { name: "M3-b", position: Point { x: 1850000000000i64, y: 1825000000000i64 }, owner: None, home: false, secure_turns: 4, decay: 2, yield_per_turn: Resources { alloys: 2, electronics: 0 } }
    } else if i == 16 {
        Planet { name: "R1-a", position: Point { x: 2300000000000i64, y: 150000000000i64 }, owner: Some(Side::Dominion), home: false, secure_turns: 4, decay: 1, yield_per_turn: Resources { alloys: 2, electronics: 0 } }
    } else if i == 17 {
        Planet { name: "R1-b", position: Point { x: 2750000000000i64, y: 225000000000i64 }, owner: Some(Side::Dominion), home: false, secure_turns: 5, decay: 2, yield_per_turn: Resources { alloys: 3, electronics: 1 } }
    } else if i == 18 {
        Planet { name: "R2-a", position: Point { x: 2225000000000i64, y: 600000000000i64 }, owner: Some(Side::Dominion), home: false, secure_turns: 4, decay: 1, yield_per_turn: Resources { alloys: 2, electronics: 1 } }
    } else if i == 19 {
        Planet { name: "R2-b", position: Point { x: 2750000000000i64, y: 700000000000i64 }, owner: Some(Side::Dominion), home: false, secure_turns: 5, decay: 2, yield_per_turn: Resources { alloys: 3, electronics: 0 } }
    } else if i == 20 {
        Planet { name: "Vesper", position: Point { x: 2500000000000i64, y: 1400000000000i64 }, owner: Some(Side::Dominion), home: false, secure_turns: 5, decay: 2, yield_per_turn: Resources { alloys: 2, electronics: 1 } }
    } else if i == 21 {
        Planet { name: "R3-b", position: Point { x: 2125000000000i64, y: 1075000000000i64 }, owner: Some(Side::Dominion), home: false, secure_turns: 4, decay: 1, yield_per_turn: Resources { alloys: 2, electronics: 0 } }
    } else if i == 22 {
        Planet { name: "R4-a", position: Point { x: 2500000000000i64, y: 1000000000000i64 }, owner: Some(Side::Dominion), home: false, secure_turns: 4, decay: 2, yield_per_turn: Resources { alloys: 3, electronics: 1 } }
    } else if i == 23 {
        Planet { name: "R4-b", position: Point { x: 2825000000000i64, y: 1375000000000i64 }, owner: Some(Side::Dominion), home: false, secure_turns: 5, decay: 2, yield_per_turn: Resources { alloys: 3, electronics: 0 } }
    } else if i == 24 {
        Planet { name: "R5-a", position: Point { x: 2475000000000i64, y: 1812000000000i64 }, owner: Some(Side::Dominion), home: false, secure_turns: 4, decay: 1, yield_per_turn: Resources { alloys: 2, electronics: 0 } }
    } else {
        Planet { name: "R5-b", position: Point { x: 2850000000000i64, y: 1800000000000i64 }, owner: Some(Side::Dominion), home: false, secure_turns: 5, decay: 2, yield_per_turn: Resources { alloys: 2, electronics: 1 } }
    }
}

pub fn at(x: i64, y: i64) -> (p: Point)
    requires
        0 <= x <= 3000,
        0 <= y <= 2000,
    ensures
        p.x == x * SCALE,
        p.y == y * SCALE,
{
    Point::units(x, y)
}

pub fn pays(alloys: u32, electronics: u32) -> (r: Resources)
    ensures
        r.alloys == alloys,
        r.electronics == electronics,
{
    Resources::new(alloys, electronics)
}

/// Placeholder security and production numbers, in the Roadmap's ranges:
/// `security` is (turns to secure, decay per turn).
pub fn planet(
    name: &'static str,
    position: Point,
    owner: Option<Side>,
    security: (u32, u32),
    yield_per_turn: Resources,
) -> (p: Planet)
    ensures
        p.name == name,
        p.position == position,
        p.owner == owner,
        !p.home,
        p.secure_turns == security.0,
        p.decay == security.1,
        p.yield_per_turn == yield_per_turn,
{
    Planet {
        name,
        position,
        owner,
        home: false,
        secure_turns: security.0,
        decay: security.1,
        yield_per_turn,
    }
}

/// The whole table, in order.
pub fn planets() -> (table: Vec<Planet>)
    ensures
        table@.len() == PLANET_COUNT,
        forall|i: int| 0 <= i < PLANET_COUNT ==> #[trigger] table@[i] == planet_spec(i),
{
    let mut table: Vec<Planet> = Vec::new();
    table.push(planet("L1-a", at(225, 188), None, (4, 1), pays(2, 0)));
    table.push(planet("L1-b", at(700, 175), None, (3, 1), pays(1, 1)));
    table.push(Planet { home: true, ..planet("Arcadia", at(350, 955), Some(Side::Player), (3, 1), pays(3, 1)) });
    table.push(planet("L2-b", at(175, 1275), None, (3, 1), pays(2, 0)));
    table.push(planet("Haven", at(575, 750), None, (4, 1), pays(2, 1)));
    table.push(planet("Verdant", at(950, 1025), None, (5, 2), pays(3, 0)));
    table.push(planet("L4-a", at(200, 1700), None, (3, 1), pays(1, 0)));
    table.push(planet("L4-b", at(675, 1788), None, (4, 2), pays(2, 1)));
    table.push(planet("L5-a", at(650, 1450), None, (3, 1), pays(2, 0)));
    table.push(planet("L5-b", at(1175, 1600), None, (4, 1), pays(3, 0)));
    table.push(planet("M1-a", at(1275, 188), None, (4, 1), pays(2, 0)));
    table.push(planet("M1-b", at(1750, 325), None, (5, 2), pays(3, 1)));
    table.push(planet("Cinder", at(1850, 825), Some(Side::Dominion), (5, 2), pays(3, 1)));
    table.push(planet("M2-b", at(1300, 700), None, (4, 1), pays(2, 0)));
    table.push(planet("M3-a", at(1575, 1550), None, (3, 1), pays(1, 1)));
    table.push(planet("M3-b", at(1850, 1825), None, (4, 2), pays(2, 0)));
    table.push(planet("R1-a", at(2300, 150), Some(Side::Dominion), (4, 1), pays(2, 0)));
    table.push(planet("R1-b", at(2750, 225), Some(Side::Dominion), (5, 2), pays(3, 1)));
    table.push(planet("R2-a", at(2225, 600), Some(Side::Dominion), (4, 1), pays(2, 1)));
    table.push(planet("R2-b", at(2750, 700), Some(Side::Dominion), (5, 2), pays(3, 0)));
    table.push(planet("Vesper", at(2500, 1400), Some(Side::Dominion), (5, 2), pays(2, 1)));
    table.push(planet("R3-b", at(2125, 1075), Some(Side::Dominion), (4, 1), pays(2, 0)));
    table.push(planet("R4-a", at(2500, 1000), Some(Side::Dominion), (4, 2), pays(3, 1)));
    table.push(planet("R4-b", at(2825, 1375), Some(Side::Dominion), (5, 2), pays(3, 0)));
    table.push(planet("R5-a", at(2475, 1812), Some(Side::Dominion), (4, 1), pays(2, 0)));
    table.push(planet("R5-b", at(2850, 1800), Some(Side::Dominion), (5, 2), pays(2, 1)));
    assert(table@.len() == PLANET_COUNT);
    table
}

/// Every world sits on the map, needs three to five turns to secure, and
/// decays by one or two.
pub proof fn lemma_planet_table(i: int)
    requires
        0 <= i < PLANET_COUNT,
    ensures
        on_map(planet_spec(i).position),
        bounded(planet_spec(i).position),
        3 <= planet_spec(i).secure_turns <= 5,
        1 <= planet_spec(i).decay <= 2,
        planet_spec(i).yield_per_turn.alloys <= 3,
        planet_spec(i).yield_per_turn.electronics <= 1,
        planet_spec(i).home == (i == HOME),
{
}

} // verus!
