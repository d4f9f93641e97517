//! Points of interest: things worth a detour that the fog hides until a ship
//! charts them. Each sector holds one at a time; salvaging one starts a clock,
//! and a new one appears somewhere in that sector out of sight when it runs out.
use vstd::prelude::*;

use crate::economy::{poi_ids_have_room, sum, sum_fits, Resources};
use crate::geometry::{bounded, dist_sq, on_map, Point};
use crate::layout::{bounds_spec, corners_spec, lemma_regions_wf, region_contains, region_index, region_index_spec, regions, Rect, REGION_COUNT};
use crate::planets::{planet_spec, planets, PLANET_COUNT};
use crate::rng::{range_value, scrambled_output, unit_value, xorshift, Rng, UNIT_DENOMINATOR};
use crate::world::{Game, GameModel, Side};

verus! {

/// A ship must be within 100 units to salvage a wreck.
pub const SALVAGE_RANGE: i64 = 100_000_000_000;
/// Room a point of interest keeps from planets and other points: 150 units.
pub const CLEARANCE: i64 = 150_000_000_000;
/// Turns after a salvage before that sector gets a new point: 10 to 20.
pub const RESPAWN_LOW: u32 = 10;
pub const RESPAWN_HIGH: u32 = 20;
/// The starter point sits 260 to 330 units from the scout's start: just out
/// of sight, one move away.
pub const STARTER_LOW: i64 = 260_000_000_000;
pub const STARTER_HIGH: i64 = 330_000_000_000;
pub const PLACEMENT_TRIES: usize = 200;
/// A 35% chance, as a `chance` threshold: the double nearest 0.35 times 2^53.
pub const ELECTRONICS_CHANCE: u64 = 3_152_519_739_159_347;

#[derive(Clone, Copy, Debug, PartialEq, Eq, Structural)]
pub enum PoiKind {
    DestroyedStation,
}

#[derive(Clone, Copy, Debug, PartialEq, Eq, Structural)]
pub struct Poi {
    pub id: u32,
    pub kind: PoiKind,
    pub position: Point,
    /// Index into the region table.
    pub sector: usize,
}

/// The loot a wreck pays and the generator state after rolling it: an alloy
/// count, then the electronics chance, then the electronics count if it hit.
pub open spec fn roll_spec(kind: PoiKind, state: u64) -> (Resources, u64) {
    let s1 = xorshift(state);
    let alloys = range_value(6, 12, scrambled_output(s1));
    let s2 = xorshift(s1);
    if unit_value(scrambled_output(s2)) < ELECTRONICS_CHANCE {
        let s3 = xorshift(s2);
        (Resources { alloys, electronics: range_value(2, 4, scrambled_output(s3)) }, s3)
    } else {
        (Resources { alloys, electronics: 0 }, s2)
    }
}

impl PoiKind {
    pub fn name(self) -> (name: &'static str)
        ensures
            name@ == "Destroyed Space Station"@,
    {
        match self {
            PoiKind::DestroyedStation => "Destroyed Space Station",
        }
    }

    /// Fits under a map marker.
    pub fn short_name(self) -> (name: &'static str)
        ensures
            name@ == "Station"@,
    {
        match self {
            PoiKind::DestroyedStation => "Station",
        }
    }

    pub fn description(self) -> (text: &'static str)
        ensures
            text@ == "A hull cracked open long ago. Something in the wreckage is still worth hauling home."@,
    {
        match self {
            PoiKind::DestroyedStation => {
                "A hull cracked open long ago. Something in the wreckage is still worth hauling home."
            },
        }
    }

    /// Placeholder loot from the Roadmap: 6 to 12 Alloys, and a 35% chance of
    /// 2 to 4 Advanced Electronics.
    pub fn alloys(self) -> (range: (u32, u32))
        ensures
            range == (6u32, 12u32),
    {
        match self {
            PoiKind::DestroyedStation => (6, 12),
        }
    }

    /// The electronics chance, as a `chance` threshold, and their range.
    pub fn electronics(self) -> (odds: (u64, u32, u32))
        ensures
            odds == (ELECTRONICS_CHANCE, 2u32, 4u32),
    {
        match self {
            PoiKind::DestroyedStation => (ELECTRONICS_CHANCE, 2, 4),
        }
    }

    pub fn roll(self, rng: &mut Rng) -> (loot: Resources)
        ensures
            (loot, final(rng)@) == roll_spec(self, old(rng)@),
            6 <= loot.alloys <= 12,
            loot.electronics == 0 || 2 <= loot.electronics <= 4,
    {
        let (low, high) = self.alloys();
        let (chance, few, many) = self.electronics();
        let alloys = rng.range(low, high);
        let electronics = if rng.chance(chance) {
            rng.range(few, many)
        } else {
            0
        };
        Resources::new(alloys, electronics)
    }
}

/// Some generator state makes a wreck of `kind` pay `alloys`.
pub open spec fn some_roll_pays(kind: PoiKind, alloys: u32) -> bool {
    exists|s: u64| (#[trigger] roll_spec(kind, s)).0.alloys == alloys
}

/// One xorshift step written out, so that a state can be stepped by the bit
/// solver.
proof fn lemma_xorshift_steps(x: u64, y: u64)
    requires
        ((x ^ (x >> 12u64)) ^ ((x ^ (x >> 12u64)) << 25u64)) ^ (((x ^ (x >> 12u64)) ^ ((x ^ (x >> 12u64)) << 25u64))
            >> 27u64) == y,
    ensures
        xorshift(x) == y,
{
}

proof fn lemma_roll_alloys(kind: PoiKind, state: u64)
    ensures
        roll_spec(kind, state).0.alloys == range_value(6, 12, scrambled_output(xorshift(state))),
        6 <= roll_spec(kind, state).0.alloys <= 12,
{
    let raw = scrambled_output(xorshift(state));
    assert(raw as nat % 7 < 7);
}

/// The state that makes a wreck pay `alloys`, for each amount from 6 to 12.
proof fn lemma_roll_pays(kind: PoiKind, alloys: u32)
    requires
        6 <= alloys <= 12,
    ensures
        some_roll_pays(kind, alloys),
{
    if alloys == 6 {
        assert((((11u64 ^ (11u64 >> 12u64)) ^ ((11u64 ^ (11u64 >> 12u64)) << 25u64)) ^ (((11u64 ^ (11u64 >> 12u64)) ^ ((11u64
            ^ (11u64 >> 12u64)) << 25u64)) >> 27u64)) == 369098761u64) by (bit_vector);
        lemma_xorshift_steps(11u64, 369098761u64);
        assert(scrambled_output(369098761u64) == 14720283784378566149u64);
        vstd::arithmetic::div_mod::lemma_fundamental_div_mod_converse(14720283784378566149int, 7int, 2102897683482652307int, 0int);
        assert(range_value(6, 12, 14720283784378566149u64) == 6u32);
        lemma_roll_alloys(kind, 11u64);
        assert(roll_spec(kind, 11u64).0.alloys == alloys);
    } else if alloys == 7 {
        assert((((3u64 ^ (3u64 >> 12u64)) ^ ((3u64 ^ (3u64 >> 12u64)) << 25u64)) ^ (((3u64 ^ (3u64 >> 12u64)) ^ ((3u64
            ^ (3u64 >> 12u64)) << 25u64)) >> 27u64)) == 100663299u64) by (bit_vector);
        lemma_xorshift_steps(3u64, 100663299u64);
        assert(scrambled_output(100663299u64) == 15541476885619185495u64);
        vstd::arithmetic::div_mod::lemma_fundamental_div_mod_converse(15541476885619185495int, 7int, 2220210983659883642int, 1int);
        assert(range_value(6, 12, 15541476885619185495u64) == 7u32);
        lemma_roll_alloys(kind, 3u64);
        assert(roll_spec(kind, 3u64).0.alloys == alloys);
    } else if alloys == 8 {
        assert((((10u64 ^ (10u64 >> 12u64)) ^ ((10u64 ^ (10u64 >> 12u64)) << 25u64)) ^ (((10u64 ^ (10u64 >> 12u64)) ^ ((10u64
            ^ (10u64 >> 12u64)) << 25u64)) >> 27u64)) == 335544328u64) by (bit_vector);
        lemma_xorshift_steps(10u64, 335544328u64);
        assert(scrambled_output(335544328u64) == 9539791489172170984u64);
        vstd::arithmetic::div_mod::lemma_fundamental_div_mod_converse(9539791489172170984int, 7int, 1362827355596024426int, 2int);
        assert(range_value(6, 12, 9539791489172170984u64) == 8u32);
        lemma_roll_alloys(kind, 10u64);
        assert(roll_spec(kind, 10u64).0.alloys == alloys);
    } else if alloys == 9 {
        assert((((2u64 ^ (2u64 >> 12u64)) ^ ((2u64 ^ (2u64 >> 12u64)) << 25u64)) ^ (((2u64 ^ (2u64 >> 12u64)) ^ ((2u64
            ^ (2u64 >> 12u64)) << 25u64)) >> 27u64)) == 67108866u64) by (bit_vector);
        lemma_xorshift_steps(2u64, 67108866u64);
        assert(scrambled_output(67108866u64) == 10360984590412790330u64);
        vstd::arithmetic::div_mod::lemma_fundamental_div_mod_converse(10360984590412790330int, 7int, 1480140655773255761int, 3int);
        assert(range_value(6, 12, 10360984590412790330u64) == 9u32);
        lemma_roll_alloys(kind, 2u64);
        assert(roll_spec(kind, 2u64).0.alloys == alloys);
    } else if alloys == 10 {
        assert((((7u64 ^ (7u64 >> 12u64)) ^ ((7u64 ^ (7u64 >> 12u64)) << 25u64)) ^ (((7u64 ^ (7u64 >> 12u64)) ^ ((7u64
            ^ (7u64 >> 12u64)) << 25u64)) >> 27u64)) == 234881030u64) by (bit_vector);
        lemma_xorshift_steps(7u64, 234881030u64);
        assert(scrambled_output(234881030u64) == 15130880334998875822u64);
        vstd::arithmetic::div_mod::lemma_fundamental_div_mod_converse(15130880334998875822int, 7int, 2161554333571267974int, 4int);
        assert(range_value(6, 12, 15130880334998875822u64) == 10u32);
        lemma_roll_alloys(kind, 7u64);
        assert(roll_spec(kind, 7u64).0.alloys == alloys);
    } else if alloys == 11 {
        assert((((1u64 ^ (1u64 >> 12u64)) ^ ((1u64 ^ (1u64 >> 12u64)) << 25u64)) ^ (((1u64 ^ (1u64 >> 12u64)) ^ ((1u64
            ^ (1u64 >> 12u64)) << 25u64)) >> 27u64)) == 33554433u64) by (bit_vector);
        lemma_xorshift_steps(1u64, 33554433u64);
        assert(scrambled_output(33554433u64) == 5180492295206395165u64);
        vstd::arithmetic::div_mod::lemma_fundamental_div_mod_converse(5180492295206395165int, 7int, 740070327886627880int, 5int);
        assert(range_value(6, 12, 5180492295206395165u64) == 11u32);
        lemma_roll_alloys(kind, 1u64);
        assert(roll_spec(kind, 1u64).0.alloys == alloys);
    } else if alloys == 12 {
        assert((((21u64 ^ (21u64 >> 12u64)) ^ ((21u64 ^ (21u64 >> 12u64)) << 25u64)) ^ (((21u64 ^ (21u64 >> 12u64)) ^ ((21u64
            ^ (21u64 >> 12u64)) << 25u64)) >> 27u64)) == 704643088u64) by (bit_vector);
        lemma_xorshift_steps(21u64, 704643088u64);
        assert(scrambled_output(704643088u64) == 3127509542104846800u64);
        vstd::arithmetic::div_mod::lemma_fundamental_div_mod_converse(3127509542104846800int, 7int, 446787077443549542int, 6int);
        assert(range_value(6, 12, 3127509542104846800u64) == 12u32);
        lemma_roll_alloys(kind, 21u64);
        assert(roll_spec(kind, 21u64).0.alloys == alloys);
    }
}

/// The alloys a wreck pays are the generator's next draw over 6 to 12, the
/// range the wreck's kind gives: the very number `Rng::range(6, 12)` draws from
/// the same state. Every amount from 6 to 12 comes up for some state.
pub proof fn law_salvage_alloys_span_six_to_twelve(kind: PoiKind, state: u64)
    ensures
        roll_spec(kind, state).0.alloys == range_value(6, 12, scrambled_output(xorshift(state))),
        6 <= roll_spec(kind, state).0.alloys <= 12,
        forall|v: u32| 6 <= v <= 12 ==> #[trigger] some_roll_pays(kind, v),
{
    lemma_roll_alloys(kind, state);
    assert forall|v: u32| 6 <= v <= 12 implies #[trigger] some_roll_pays(kind, v) by {
        lemma_roll_pays(kind, v);
    }
}

/// Some generator state makes a wreck of `kind` pay `electronics`.
pub open spec fn some_roll_pays_electronics(kind: PoiKind, electronics: u32) -> bool {
    exists|s: u64| (#[trigger] roll_spec(kind, s)).0.electronics == electronics
}

proof fn lemma_roll_electronics(kind: PoiKind, state: u64)
    ensures
        roll_spec(kind, state).0.electronics == if unit_value(scrambled_output(xorshift(xorshift(state))))
            < ELECTRONICS_CHANCE {
            range_value(2, 4, scrambled_output(xorshift(xorshift(xorshift(state)))))
        } else {
            0u32
        },
{
}

/// The state that makes a wreck pay `electronics`, for none and for each
/// amount from 2 to 4.
proof fn lemma_roll_pays_electronics(kind: PoiKind, electronics: u32)
    requires
        electronics == 0 || 2 <= electronics <= 4,
    ensures
        some_roll_pays_electronics(kind, electronics),
{
    if electronics == 0 {
        assert((((1u64 ^ (1u64 >> 12u64)) ^ ((1u64 ^ (1u64 >> 12u64)) << 25u64)) ^ (((1u64 ^ (1u64 >> 12u64)) ^ ((1u64
            ^ (1u64 >> 12u64)) << 25u64)) >> 27u64)) == 33554433u64) by (bit_vector);
        lemma_xorshift_steps(1u64, 33554433u64);
        assert((((33554433u64 ^ (33554433u64 >> 12u64)) ^ ((33554433u64 ^ (33554433u64 >> 12u64)) << 25u64)) ^ (((33554433u64 ^ (33554433u64 >> 12u64)) ^ ((33554433u64
            ^ (33554433u64 >> 12u64)) << 25u64)) >> 27u64)) == 1126174793148417u64) by (bit_vector);
        lemma_xorshift_steps(33554433u64, 1126174793148417u64);
        assert(scrambled_output(1126174793148417u64) == 12380297144915551517u64);
        assert((12380297144915551517u64 >> 11u64) == 6045066965290796u64) by (bit_vector);
        lemma_roll_electronics(kind, 1u64);
        assert(roll_spec(kind, 1u64).0.electronics == electronics);
    } else if electronics == 2 {
        assert((((3u64 ^ (3u64 >> 12u64)) ^ ((3u64 ^ (3u64 >> 12u64)) << 25u64)) ^ (((3u64 ^ (3u64 >> 12u64)) ^ ((3u64
            ^ (3u64 >> 12u64)) << 25u64)) >> 27u64)) == 100663299u64) by (bit_vector);
        lemma_xorshift_steps(3u64, 100663299u64);
        assert((((100663299u64 ^ (100663299u64 >> 12u64)) ^ ((100663299u64 ^ (100663299u64 >> 12u64)) << 25u64)) ^ (((100663299u64 ^ (100663299u64 >> 12u64)) ^ ((100663299u64
            ^ (100663299u64 >> 12u64)) << 25u64)) >> 27u64)) == 3378524379445251u64) by (bit_vector);
        lemma_xorshift_steps(100663299u64, 3378524379445251u64);
        assert(scrambled_output(3378524379445251u64) == 247403287327551319u64);
        assert((247403287327551319u64 >> 11u64) == 120802386390405u64) by (bit_vector);
        assert((((3378524379445251u64 ^ (3378524379445251u64 >> 12u64)) ^ ((3378524379445251u64 ^ (3378524379445251u64 >> 12u64)) << 25u64)) ^ (((3378524379445251u64 ^ (3378524379445251u64 >> 12u64)) ^ ((3378524379445251u64
            ^ (3378524379445251u64 >> 12u64)) << 25u64)) >> 27u64)) == 6474749221828612u64) by (bit_vector);
        lemma_xorshift_steps(3378524379445251u64, 6474749221828612u64);
        assert(scrambled_output(6474749221828612u64) == 9126131361558105204u64);
        vstd::arithmetic::div_mod::lemma_fundamental_div_mod_converse(9126131361558105204int, 3int, 3042043787186035068int, 0int);
        assert(range_value(2, 4, 9126131361558105204u64) == 2u32);
        lemma_roll_electronics(kind, 3u64);
        assert(roll_spec(kind, 3u64).0.electronics == electronics);
    } else if electronics == 3 {
        assert((((2u64 ^ (2u64 >> 12u64)) ^ ((2u64 ^ (2u64 >> 12u64)) << 25u64)) ^ (((2u64 ^ (2u64 >> 12u64)) ^ ((2u64
            ^ (2u64 >> 12u64)) << 25u64)) >> 27u64)) == 67108866u64) by (bit_vector);
        lemma_xorshift_steps(2u64, 67108866u64);
        assert((((67108866u64 ^ (67108866u64 >> 12u64)) ^ ((67108866u64 ^ (67108866u64 >> 12u64)) << 25u64)) ^ (((67108866u64 ^ (67108866u64 >> 12u64)) ^ ((67108866u64
            ^ (67108866u64 >> 12u64)) << 25u64)) >> 27u64)) == 2252349586296834u64) by (bit_vector);
        lemma_xorshift_steps(67108866u64, 2252349586296834u64);
        assert(scrambled_output(2252349586296834u64) == 6313850216121551418u64);
        assert((6313850216121551418u64 >> 11u64) == 3082934675840601u64) by (bit_vector);
        assert((((2252349586296834u64 ^ (2252349586296834u64 >> 12u64)) ^ ((2252349586296834u64 ^ (2252349586296834u64 >> 12u64)) << 25u64)) ^ (((2252349586296834u64 ^ (2252349586296834u64 >> 12u64)) ^ ((2252349586296834u64
            ^ (2252349586296834u64 >> 12u64)) << 25u64)) >> 27u64)) == 7318899221614599u64) by (bit_vector);
        lemma_xorshift_steps(2252349586296834u64, 7318899221614599u64);
        assert(scrambled_output(7318899221614599u64) == 8523403104418470859u64);
        vstd::arithmetic::div_mod::lemma_fundamental_div_mod_converse(8523403104418470859int, 3int, 2841134368139490286int, 1int);
        assert(range_value(2, 4, 8523403104418470859u64) == 3u32);
        lemma_roll_electronics(kind, 2u64);
        assert(roll_spec(kind, 2u64).0.electronics == electronics);
    } else if electronics == 4 {
        assert((((9u64 ^ (9u64 >> 12u64)) ^ ((9u64 ^ (9u64 >> 12u64)) << 25u64)) ^ (((9u64 ^ (9u64 >> 12u64)) ^ ((9u64
            ^ (9u64 >> 12u64)) << 25u64)) >> 27u64)) == 301989899u64) by (bit_vector);
        lemma_xorshift_steps(9u64, 301989899u64);
        assert((((301989899u64 ^ (301989899u64 >> 12u64)) ^ ((301989899u64 ^ (301989899u64 >> 12u64)) << 25u64)) ^ (((301989899u64 ^ (301989899u64 >> 12u64)) ^ ((301989899u64
            ^ (301989899u64 >> 12u64)) << 25u64)) >> 27u64)) == 10135573071226891u64) by (bit_vector);
        lemma_xorshift_steps(301989899u64, 10135573071226891u64);
        assert(scrambled_output(10135573071226891u64) == 1124511902515218495u64);
        assert((1124511902515218495u64 >> 11u64) == 549078077400009u64) by (bit_vector);
        assert((((10135573071226891u64 ^ (10135573071226891u64 >> 12u64)) ^ ((10135573071226891u64 ^ (10135573071226891u64 >> 12u64)) << 25u64)) ^ (((10135573071226891u64 ^ (10135573071226891u64 >> 12u64)) ^ ((10135573071226891u64
            ^ (10135573071226891u64 >> 12u64)) << 25u64)) >> 27u64)) == 30683796439382046u64) by (bit_vector);
        lemma_xorshift_steps(10135573071226891u64, 30683796439382046u64);
        assert(scrambled_output(30683796439382046u64) == 10091392043178606950u64);
        vstd::arithmetic::div_mod::lemma_fundamental_div_mod_converse(10091392043178606950int, 3int, 3363797347726202316int, 2int);
        assert(range_value(2, 4, 10091392043178606950u64) == 4u32);
        lemma_roll_electronics(kind, 9u64);
        assert(roll_spec(kind, 9u64).0.electronics == electronics);
    }
}

/// A wreck pays Advanced Electronics only when the generator's second draw
/// falls under the 35% chance, and then the third draw over 2 to 4; every
/// outcome (none, 2, 3 or 4) comes up for some state.
pub proof fn law_salvage_electronics_by_chance(kind: PoiKind, state: u64)
    ensures
        roll_spec(kind, state).0.electronics == if unit_value(scrambled_output(xorshift(xorshift(state))))
            < ELECTRONICS_CHANCE {
            range_value(2, 4, scrambled_output(xorshift(xorshift(xorshift(state)))))
        } else {
            0u32
        },
        forall|e: u32| (e == 0 || 2 <= e <= 4) ==> #[trigger] some_roll_pays_electronics(kind, e),
{
    lemma_roll_electronics(kind, state);
    assert forall|e: u32| (e == 0 || 2 <= e <= 4) implies #[trigger] some_roll_pays_electronics(kind, e) by {
        lemma_roll_pays_electronics(kind, e);
    }
}

/// `unit / 2^53` of `width`, rounded down.
pub open spec fn portion(unit: u64, width: int) -> int {
    unit * width / UNIT_DENOMINATOR as int
}

/// A ring around a point: its centre, and the nearest and farthest distance.
pub type Band = (Point, (i64, i64));

/// One candidate spot and the generator state after drawing it: uniform in the
/// sector's bounding box, or in the square around the band's ring.
pub open spec fn sample_spec(bounds: Rect, band: Option<Band>, state: u64) -> (Point, u64) {
    let s1 = xorshift(state);
    let s2 = xorshift(s1);
    let u1 = unit_value(scrambled_output(s1));
    let u2 = unit_value(scrambled_output(s2));
    match band {
        Some((center, (low, high))) => (
            Point {
                x: (center.x - high + portion(u1, 2 * high)) as i64,
                y: (center.y - high + portion(u2, 2 * high)) as i64,
            },
            s2,
        ),
        None => (
            Point {
                x: (bounds.min.x + portion(u1, bounds.max.x - bounds.min.x)) as i64,
                y: (bounds.min.y + portion(u2, bounds.max.y - bounds.min.y)) as i64,
            },
            s2,
        ),
    }
}

/// `point` lies in the ring, both edges included.
pub open spec fn in_band(point: Point, band: Option<Band>) -> bool {
    match band {
        Some((center, (low, high))) => low * low <= dist_sq(point, center) <= high * high,
        None => true,
    }
}

/// A legal spot in `sector`: inside it, clear of planets and other points,
/// and out of the player's sight.
pub open spec fn placement_ok_spec(game: GameModel, point: Point, sector: int) -> bool {
    &&& region_contains(sector, point)
    &&& forall|j: int| 0 <= j < PLANET_COUNT ==> dist_sq(#[trigger] planet_spec(j).position, point) >= CLEARANCE * CLEARANCE
    &&& forall|j: int| 0 <= j < game.pois.len() ==> dist_sq(#[trigger] game.pois[j].position, point) >= CLEARANCE
        * CLEARANCE
    &&& !game.can_see_spec(Side::Player, point)
}

/// Up to `tries` draws until one lands on a legal spot; the spot, if any, and
/// the generator state after the draws.
pub open spec fn place_spec(game: GameModel, sector: int, band: Option<Band>, state: u64, tries: nat) -> (Option<Point>, u64)
    decreases tries,
{
    if tries == 0 {
        (None, state)
    } else {
        let (point, next) = sample_spec(bounds_spec(corners_spec(sector)), band, state);
        if in_band(point, band) && placement_ok_spec(game, point, sector) {
            (Some(point), next)
        } else {
            place_spec(game, sector, band, next, (tries - 1) as nat)
        }
    }
}

/// A new point of interest in `sector` at `position`, with the next id.
pub open spec fn add_poi_spec(game: GameModel, sector: int, position: Point) -> GameModel {
    GameModel {
        pois: game.pois.push(Poi { id: game.next_poi_id, kind: PoiKind::DestroyedStation, position, sector: sector as usize }),
        next_poi_id: (game.next_poi_id + 1) as u32,
        ..game
    }
}

/// Try to place a point in `sector`, and add it if a spot turned up.
pub open spec fn place_and_add(game: GameModel, sector: int, band: Option<Band>) -> GameModel {
    let (found, next) = place_spec(game, sector, band, game.rng, PLACEMENT_TRIES as nat);
    let drawn = GameModel { rng: next, ..game };
    match found {
        Some(position) => add_poi_spec(drawn, sector, position),
        None => drawn,
    }
}

/// The band the starter point uses in `sector`, if it is the scout's.
pub open spec fn starter_band(sector: int, start: Point, home: Option<usize>) -> Option<Band> {
    if home == Some(sector as usize) { Some((start, (STARTER_LOW, STARTER_HIGH))) } else { None }
}

/// Seeding the first `k` sectors.
pub open spec fn seed_upto(game: GameModel, start: Point, home: Option<usize>, k: int) -> GameModel
    decreases k,
{
    if k <= 0 {
        game
    } else {
        let before = seed_upto(game, start, home, k - 1);
        place_and_add(before, k - 1, starter_band(k - 1, start, home))
    }
}

/// One point per sector at the start, the scout's own sector getting the starter.
pub open spec fn seed_spec(game: GameModel) -> GameModel {
    let start = game.fleets[0].position;
    seed_upto(game, start, region_index_spec(start), REGION_COUNT as int)
}

pub open spec fn sector_occupied(game: GameModel, sector: int) -> bool {
    exists|j: int| 0 <= j < game.pois.len() && (#[trigger] game.pois[j]).sector == sector
}

/// No point stands in `sector` and its clock runs out this turn, so a point
/// may appear there.
pub open spec fn due_to_respawn(pois: Seq<Poi>, respawn: Seq<u32>, sector: int) -> bool {
    &&& !exists|j: int| 0 <= j < pois.len() && (#[trigger] pois[j]).sector == sector
    &&& respawn[sector] <= 1
}

/// How many of the first `k` sectors are due to respawn.
pub open spec fn respawns_due(pois: Seq<Poi>, respawn: Seq<u32>, k: int) -> int
    decreases k,
{
    if k <= 0 {
        0
    } else {
        respawns_due(pois, respawn, k - 1) + if due_to_respawn(pois, respawn, k - 1) { 1int } else { 0int }
    }
}

pub proof fn lemma_respawns_due_grow(pois: Seq<Poi>, respawn: Seq<u32>, j: int, k: int)
    requires
        0 <= j <= k,
    ensures
        0 <= respawns_due(pois, respawn, j) <= respawns_due(pois, respawn, k) <= k,
    decreases k,
{
    if j < k {
        lemma_respawns_due_grow(pois, respawn, j, k - 1);
    } else if k > 0 {
        lemma_respawns_due_grow(pois, respawn, k - 1, k - 1);
    }
}

/// Respawning the first `k` sectors leaves the later sectors' points and
/// clocks as they were.
proof fn lemma_respawn_leaves_later_sectors(game: GameModel, k: int, t: int)
    requires
        0 <= k <= t < REGION_COUNT,
        game.respawn.len() == REGION_COUNT,
    ensures
        respawn_upto(game, k).respawn[t] == game.respawn[t],
        sector_occupied(respawn_upto(game, k), t) == sector_occupied(game, t),
    decreases k,
{
    if k > 0 {
        lemma_respawn_leaves_later_sectors(game, k - 1, t);
        lemma_respawn_upto(game, k - 1);
        let before = respawn_upto(game, k - 1);
        let sector = k - 1;
        if !sector_occupied(before, sector) {
            let clock = before.respawn[sector];
            let left = if clock > 0 { (clock - 1) as u32 } else { 0u32 };
            let ticked = GameModel { respawn: before.respawn.update(sector, left), ..before };
            if left == 0 {
                let (found, next) = place_spec(ticked, sector, None, ticked.rng, PLACEMENT_TRIES as nat);
                let after = respawn_upto(game, k);
                if found is Some {
                    assert(after.pois == ticked.pois.push(after.pois.last()));
                    assert(after.pois.last().sector == sector);
                    if sector_occupied(after, t) {
                        let j = choose|j: int| 0 <= j < after.pois.len() && (#[trigger] after.pois[j]).sector == t;
                        assert(j < ticked.pois.len());
                        assert(before.pois[j].sector == t);
                    }
                    if sector_occupied(before, t) {
                        let j = choose|j: int| 0 <= j < before.pois.len() && (#[trigger] before.pois[j]).sector == t;
                        assert(after.pois[j].sector == t);
                    }
                }
            }
        }
    }
}

/// One empty sector's clock ticks; at zero a point may appear.
pub open spec fn respawn_step(game: GameModel, sector: int) -> GameModel {
    if sector_occupied(game, sector) {
        game
    } else {
        let clock = game.respawn[sector];
        let left = if clock > 0 { (clock - 1) as u32 } else { 0u32 };
        let ticked = GameModel { respawn: game.respawn.update(sector, left), ..game };
        if left == 0 {
            place_and_add(ticked, sector, None)
        } else {
            ticked
        }
    }
}

pub open spec fn respawn_upto(game: GameModel, k: int) -> GameModel
    decreases k,
{
    if k <= 0 {
        game
    } else {
        respawn_step(respawn_upto(game, k - 1), k - 1)
    }
}

/// Every empty sector's respawn clock runs once.
pub open spec fn advance_pois_spec(game: GameModel) -> GameModel {
    respawn_upto(game, REGION_COUNT as int)
}

/// The index of the first point with `id`.
pub open spec fn poi_index(pois: Seq<Poi>, id: u32) -> int {
    choose|i: int| 0 <= i < pois.len() && pois[i].id == id && forall|j: int| 0 <= j < i ==> pois[j].id != id
}

pub open spec fn has_poi(pois: Seq<Poi>, id: u32) -> bool {
    exists|i: int| 0 <= i < pois.len() && pois[i].id == id
}

/// Salvaging `id`: its loot goes to the stockpile, it is gone, and its sector's
/// clock starts. The loot and the game after.
pub open spec fn salvage_spec(game: GameModel, id: u32) -> (Resources, GameModel) {
    let index = poi_index(game.pois, id);
    let poi = game.pois[index];
    let (loot, rolled) = roll_spec(poi.kind, game.rng);
    let clocked = xorshift(rolled);
    let clock = range_value(RESPAWN_LOW, RESPAWN_HIGH, scrambled_output(clocked));
    (loot, GameModel {
        pois: game.pois.remove(index),
        stockpile: sum(game.stockpile, loot),
        respawn: game.respawn.update(poi.sector as int, clock),
        rng: clocked,
        ..game
    })
}

/// Room in the stockpile for the loot that salvaging `id` would roll.
pub open spec fn salvage_room(game: GameModel, id: u32) -> bool {
    has_poi(game.pois, id) ==> sum_fits(game.stockpile, salvage_spec(game, id).0)
}

/// Where a band may be used: a centre on the map and a ring of at most a thousand units.
pub open spec fn band_ok(band: Option<Band>) -> bool {
    match band {
        Some((center, (low, high))) => on_map(center) && 0 <= low <= high <= 1_000_000_000_000,
        None => true,
    }
}

impl Game {
    pub fn poi(&self, id: u32) -> (found: Option<Poi>)
        ensures
            has_poi(self@.pois, id) ==> found == Some(self@.pois[poi_index(self@.pois, id)]),
            !has_poi(self@.pois, id) ==> found is None,
    {
        let mut i: usize = 0;
        while i < self.pois.len()
            invariant
                i <= self.pois@.len(),
                forall|j: int| 0 <= j < i ==> self.pois@[j].id != id,
            decreases self.pois@.len() - i,
        {
            if self.pois[i].id == id {
                proof {
                    lemma_poi_index(self@.pois, id, i as int);
                }
                return Some(self.pois[i]);
            }
            i += 1;
        }
        None
    }

    fn add_poi(&mut self, sector: usize, position: Point)
        requires
            old(self)@.next_poi_id < u32::MAX,
        ensures
            final(self)@ == add_poi_spec(old(self)@, sector as int, position),
    {
        let id = self.next_poi_id;
        self.next_poi_id = self.next_poi_id + 1;
        self.pois.push(Poi { id, kind: PoiKind::DestroyedStation, position, sector });
    }

    fn placement_ok(&self, point: Point, sector: usize) -> (ok: bool)
        requires
            self@.wf(),
            bounded(point),
            sector < REGION_COUNT,
        ensures
            ok == placement_ok_spec(self@, point, sector as int),
    {
        let table = regions();
        proof {
            lemma_regions_wf(table@);
        }
        if !table[sector].contains(point) {
            return false;
        }
        let worlds = planets();
        let mut j: usize = 0;
        while j < PLANET_COUNT
            invariant
                bounded(point),
                worlds@.len() == PLANET_COUNT,
                forall|k: int| 0 <= k < PLANET_COUNT ==> #[trigger] worlds@[k] == planet_spec(k),
                j <= PLANET_COUNT,
                forall|k: int| 0 <= k < j ==> dist_sq(#[trigger] planet_spec(k).position, point) >= CLEARANCE * CLEARANCE,
            decreases PLANET_COUNT - j,
        {
            proof {
                crate::planets::lemma_planet_table(j as int);
            }
            if crate::geometry::squared_distance(worlds[j].position, point) < CLEARANCE as i128 * CLEARANCE as i128 {
                return false;
            }
            j += 1;
        }
        let mut k: usize = 0;
        while k < self.pois.len()
            invariant
                self@.wf(),
                bounded(point),
                k <= self.pois@.len(),
                forall|m: int| 0 <= m < k ==> dist_sq(#[trigger] self@.pois[m].position, point) >= CLEARANCE * CLEARANCE,
            decreases self.pois@.len() - k,
        {
            assert(crate::world::poi_wf(self@.pois[k as int]));
            if crate::geometry::squared_distance(self.pois[k].position, point) < CLEARANCE as i128 * CLEARANCE as i128 {
                return false;
            }
            k += 1;
        }
        !self.can_see(Side::Player, point)
    }

    /// `unit / 2^53` of `width`, rounded down.
    fn portion(unit: u64, width: i64) -> (part: i64)
        requires
            unit < UNIT_DENOMINATOR,
            0 <= width <= 0x1000_0000_0000,
        ensures
            part == portion(unit, width as int),
            0 <= part <= width,
    {
        assert(unit * width <= 0x20_0000_0000_0000 * 0x1000_0000_0000) by (nonlinear_arith)
            requires
                unit < UNIT_DENOMINATOR,
                0 <= width <= 0x1000_0000_0000,
        ;
        let product = unit as u128 * width as u128;
        proof {
            assert(unit * width <= UNIT_DENOMINATOR * width) by (nonlinear_arith)
                requires
                    unit < UNIT_DENOMINATOR,
                    0 <= width,
            ;
            assert(0 <= unit * width) by (nonlinear_arith)
                requires
                    0 <= width,
            ;
            vstd::arithmetic::div_mod::lemma_div_is_ordered(unit * width, UNIT_DENOMINATOR * width, UNIT_DENOMINATOR as int);
            vstd::arithmetic::div_mod::lemma_div_multiples_vanish(width as int, UNIT_DENOMINATOR as int);
            assert(UNIT_DENOMINATOR * width == width * UNIT_DENOMINATOR) by (nonlinear_arith);
            vstd::arithmetic::div_mod::lemma_div_pos_is_pos(unit * width, UNIT_DENOMINATOR as int);
        }
        (product / UNIT_DENOMINATOR as u128) as i64
    }

    fn sample(rng: &mut Rng, bounds: Rect, band: Option<Band>) -> (point: Point)
        requires
            on_map(bounds.min),
            on_map(bounds.max),
            bounds.min.x <= bounds.max.x,
            bounds.min.y <= bounds.max.y,
            band_ok(band),
        ensures
            (point, final(rng)@) == sample_spec(bounds, band, old(rng)@),
            final(rng)@ != 0,
            bounded(point),
    {
        let u1 = rng.unit();
        let u2 = rng.unit();
        match band {
            Some((center, (_low, high))) => {
                let x = center.x - high + Self::portion(u1, 2 * high);
                let y = center.y - high + Self::portion(u2, 2 * high);
                Point { x, y }
            },
            None => {
                let x = bounds.min.x + Self::portion(u1, bounds.max.x - bounds.min.x);
                let y = bounds.min.y + Self::portion(u2, bounds.max.y - bounds.min.y);
                Point { x, y }
            },
        }
    }

    /// One draw: a candidate spot, kept if it lies in the band and is legal.
    fn try_spot(&self, rng: &mut Rng, sector: usize, bounds: Rect, band: Option<Band>) -> (found: Option<Point>)
        requires
            self@.wf(),
            sector < REGION_COUNT,
            band_ok(band),
            on_map(bounds.min),
            on_map(bounds.max),
            bounds.min.x <= bounds.max.x,
            bounds.min.y <= bounds.max.y,
        ensures
            final(rng)@ == sample_spec(bounds, band, old(rng)@).1,
            final(rng)@ != 0,
            found matches Some(p) ==> bounded(p),
            ({
                let point = sample_spec(bounds, band, old(rng)@).0;
                found == if in_band(point, band) && placement_ok_spec(self@, point, sector as int) {
                    Some(point)
                } else {
                    None
                }
            }),
    {
        let point = Self::sample(rng, bounds, band);
        let in_ring = match band {
            Some((center, (low, high))) => {
                let d = crate::geometry::squared_distance(point, center);
                assert(low * low <= 1_000_000_000_000int * 1_000_000_000_000int) by (nonlinear_arith)
                    requires
                        0 <= low <= 1_000_000_000_000int,
                ;
                assert(high * high <= 1_000_000_000_000int * 1_000_000_000_000int) by (nonlinear_arith)
                    requires
                        0 <= high <= 1_000_000_000_000int,
                ;
                low as i128 * low as i128 <= d && d <= high as i128 * high as i128
            },
            None => true,
        };
        if in_ring && self.placement_ok(point, sector) {
            Some(point)
        } else {
            None
        }
    }

    /// A random legal spot in `sector`: inside it, clear of planets and other
    /// points, and out of the player's sight. `band` confines the search to a
    /// ring around a point instead of the whole sector.
    fn place(&mut self, sector: usize, band: Option<Band>) -> (found: Option<Point>)
        requires
            old(self)@.wf(),
            sector < REGION_COUNT,
            band_ok(band),
        ensures
            (found, final(self)@.rng) == place_spec(old(self)@, sector as int, band, old(self)@.rng, PLACEMENT_TRIES as nat),
            final(self)@ == (GameModel { rng: final(self)@.rng, ..old(self)@ }),
            final(self)@.wf(),
            found matches Some(p) ==> bounded(p),
    {
        let table = regions();
        proof {
            lemma_regions_wf(table@);
        }
        let bounds = table[sector].bounds();
        let mut rng = self.rng;
        let ghost start = self@;
        let mut tries: usize = 0;
        while tries < PLACEMENT_TRIES
            invariant
                self@ == start,
                start == old(self)@,
                start.wf(),
                sector < REGION_COUNT,
                band_ok(band),
                bounds == bounds_spec(corners_spec(sector as int)),
                on_map(bounds.min),
                on_map(bounds.max),
                bounds.min.x <= bounds.max.x,
                bounds.min.y <= bounds.max.y,
                tries <= PLACEMENT_TRIES,
                rng@ != 0,
                place_spec(start, sector as int, band, start.rng, PLACEMENT_TRIES as nat) == place_spec(
                    start,
                    sector as int,
                    band,
                    rng@,
                    (PLACEMENT_TRIES - tries) as nat,
                ),
            decreases PLACEMENT_TRIES - tries,
        {
            let ghost before = rng@;
            let found = self.try_spot(&mut rng, sector, bounds, band);
            proof {
                let (point, next) = sample_spec(bounds, band, before);
                let left = (PLACEMENT_TRIES - tries) as nat;
                assert(place_spec(start, sector as int, band, before, left) == if in_band(point, band)
                    && placement_ok_spec(start, point, sector as int) {
                    (Some(point), next)
                } else {
                    place_spec(start, sector as int, band, next, (left - 1) as nat)
                });
            }
            if found.is_some() {
                self.rng = rng;
                return found;
            }
            tries += 1;
        }
        self.rng = rng;
        None
    }
}

impl Game {
    /// Try to place a point in `sector`, and add it if a spot turned up.
    fn place_and_add(&mut self, sector: usize, band: Option<Band>)
        requires
            old(self)@.wf(),
            old(self)@.next_poi_id < u32::MAX,
            sector < REGION_COUNT,
            band_ok(band),
        ensures
            final(self)@ == place_and_add(old(self)@, sector as int, band),
            final(self)@.wf(),
            final(self)@.next_poi_id <= old(self)@.next_poi_id + 1,
            final(self)@.pois.len() <= old(self)@.pois.len() + 1,
    {
        if let Some(position) = self.place(sector, band) {
            self.add_poi(sector, position);
            assert(crate::world::poi_wf(self@.pois.last()));
            assert forall|i: int| 0 <= i < self@.pois.len() implies crate::world::poi_wf(#[trigger] self@.pois[i]) by {
                if i < self@.pois.len() - 1 {
                    assert(self@.pois[i] == old(self)@.pois[i]);
                }
            }
        }
    }

    /// One point per sector at the start. The scout's own sector gets the
    /// starter, placed a move away and just out of sight.
    pub fn seed_pois(&mut self)
        requires
            old(self)@.wf(),
            old(self)@.fleets.len() > 0,
            old(self)@.next_poi_id + REGION_COUNT <= u32::MAX,
        ensures
            final(self)@ == seed_spec(old(self)@),
            final(self)@.wf(),
            final(self)@.next_poi_id <= old(self)@.next_poi_id + REGION_COUNT,
            final(self)@.pois.len() <= old(self)@.pois.len() + REGION_COUNT,
    {
        let start = self.fleets[0].position;
        assert(crate::world::fleet_wf(self@.fleets[0]));
        let home_sector = region_index(start);
        let ghost first = self@;
        let mut sector: usize = 0;
        while sector < REGION_COUNT
            invariant
                first == old(self)@,
                first.next_poi_id + REGION_COUNT <= u32::MAX,
                start == first.fleets[0].position,
                on_map(start),
                home_sector == region_index_spec(start),
                sector <= REGION_COUNT,
                self@ == seed_upto(first, start, home_sector, sector as int),
                self@.wf(),
                self@.next_poi_id <= first.next_poi_id + sector,
                self@.pois.len() <= first.pois.len() + sector,
            decreases REGION_COUNT - sector,
        {
            let band = if home_sector == Some(sector) {
                Some((start, (STARTER_LOW, STARTER_HIGH)))
            } else {
                None
            };
            assert(band == starter_band(sector as int, start, home_sector));
            self.place_and_add(sector, band);
            sector += 1;
        }
    }

    pub fn sector_occupied(&self, sector: usize) -> (occupied: bool)
        ensures
            occupied == sector_occupied(self@, sector as int),
    {
        let mut i: usize = 0;
        while i < self.pois.len()
            invariant
                i <= self.pois@.len(),
                forall|j: int| 0 <= j < i ==> (#[trigger] self@.pois[j]).sector != sector,
            decreases self.pois@.len() - i,
        {
            if self.pois[i].sector == sector {
                assert(self@.pois[i as int].sector == sector);
                return true;
            }
            i += 1;
        }
        false
    }

    /// Run every empty sector's respawn clock; at zero, try to place a new point.
    #[verifier::rlimit(30)]
    pub fn advance_pois(&mut self)
        requires
            old(self)@.wf(),
            poi_ids_have_room(old(self)@),
        ensures
            final(self)@ == advance_pois_spec(old(self)@),
            final(self)@.wf(),
            final(self)@.next_poi_id <= old(self)@.next_poi_id + respawns_due(
                old(self)@.pois,
                old(self)@.respawn,
                REGION_COUNT as int,
            ),
            final(self)@.pois.len() <= old(self)@.pois.len() + REGION_COUNT,
    {
        let ghost first = self@;
        let mut sector: usize = 0;
        while sector < REGION_COUNT
            invariant
                first == old(self)@,
                first.wf(),
                poi_ids_have_room(first),
                sector <= REGION_COUNT,
                self@ == respawn_upto(first, sector as int),
                self@.wf(),
                self@.next_poi_id <= first.next_poi_id + respawns_due(first.pois, first.respawn, sector as int),
                self@.pois.len() <= first.pois.len() + sector,
            decreases REGION_COUNT - sector,
        {
            let ghost due_before = respawns_due(first.pois, first.respawn, sector as int);
            proof {
                lemma_respawn_leaves_later_sectors(first, sector as int, sector as int);
                lemma_respawns_due_grow(first.pois, first.respawn, sector as int + 1, REGION_COUNT as int);
                assert(respawns_due(first.pois, first.respawn, sector as int + 1) == due_before + if due_to_respawn(
                    first.pois,
                    first.respawn,
                    sector as int,
                ) {
                    1int
                } else {
                    0int
                });
                assert(due_to_respawn(first.pois, first.respawn, sector as int) == (!sector_occupied(first, sector as int)
                    && first.respawn[sector as int] <= 1));
            }
            if !self.sector_occupied(sector) {
                let clock = self.respawn[sector];
                let left = if clock > 0 { clock - 1 } else { 0 };
                let ghost prev = self@;
                self.respawn.set(sector, left);
                assert(self@ == (GameModel { respawn: prev.respawn.update(sector as int, left), ..prev }));
                assert(self@.fleets == prev.fleets);
                assert(self@.planets == prev.planets);
                assert(self@.pois == prev.pois);
                assert(self@.wf());
                if left == 0 {
                    self.place_and_add(sector, None);
                }
            }
            sector += 1;
        }
    }

    /// How many empty sectors run out their clocks this turn.
    pub fn respawns_due(&self) -> (due: u64)
        requires
            self@.wf(),
        ensures
            due == respawns_due(self@.pois, self@.respawn, REGION_COUNT as int),
    {
        let mut due: u64 = 0;
        let mut sector: usize = 0;
        while sector < REGION_COUNT
            invariant
                self@.wf(),
                sector <= REGION_COUNT,
                due == respawns_due(self@.pois, self@.respawn, sector as int),
            decreases REGION_COUNT - sector,
        {
            proof {
                lemma_respawns_due_grow(self@.pois, self@.respawn, sector as int, sector as int);
            }
            if !self.sector_occupied(sector) && self.respawn[sector] <= 1 {
                due = due + 1;
            }
            sector += 1;
        }
        due
    }

    /// Whether the stockpile has room for the loot that salvaging `id` would roll.
    pub fn salvage_room(&self, id: u32) -> (room: bool)
        ensures
            room == salvage_room(self@, id),
    {
        match self.poi(id) {
            None => true,
            Some(found) => {
                let mut rng = self.rng;
                let loot = found.kind.roll(&mut rng);
                self.stockpile.fits(loot)
            },
        }
    }

    /// Salvage `id`: roll its loot into the stockpile, remove it, and start the
    /// sector's clock. Validated by the action rules first.
    pub fn salvage(&mut self, id: u32) -> (loot: Resources)
        requires
            old(self)@.wf(),
            salvage_room(old(self)@, id),
            has_poi(old(self)@.pois, id),
        ensures
            (loot, final(self)@) == salvage_spec(old(self)@, id),
            final(self)@.wf(),
            6 <= loot.alloys <= 12,
            loot.electronics == 0 || 2 <= loot.electronics <= 4,
    {
        let mut position: Option<usize> = None;
        let mut i: usize = 0;
        while i < self.pois.len()
            invariant
                i <= self.pois@.len(),
                position matches Some(p) ==> p < i && self@.pois[p as int].id == id && forall|j: int| 0 <= j < p
                    ==> self@.pois[j].id != id,
                position is None ==> forall|j: int| 0 <= j < i ==> self@.pois[j].id != id,
            decreases self.pois@.len() - i,
        {
            if position.is_none() && self.pois[i].id == id {
                position = Some(i);
            }
            i += 1;
        }
        let index = match position {
            Some(p) => p,
            None => {
                proof {
                    let w = choose|w: int| 0 <= w < self@.pois.len() && self@.pois[w].id == id;
                    assert(self@.pois[w].id != id);
                }
                return Resources::new(0, 0);
            },
        };
        proof {
            lemma_poi_index(self@.pois, id, index as int);
        }
        let poi = self.pois.remove(index);
        let reward = poi.kind.roll(&mut self.rng);
        self.stockpile = self.stockpile.plus(reward);
        let clock = self.rng.range(RESPAWN_LOW, RESPAWN_HIGH);
        self.respawn.set(poi.sector, clock);
        proof {
            assert forall|i: int| 0 <= i < self@.pois.len() implies crate::world::poi_wf(#[trigger] self@.pois[i]) by {
                if i < index {
                    assert(self@.pois[i] == old(self)@.pois[i]);
                } else {
                    assert(self@.pois[i] == old(self)@.pois[i + 1]);
                }
            }
        }
        reward
    }
}

/// A point with `id` exists, so the first one does too.
pub proof fn lemma_first_poi(pois: Seq<Poi>, id: u32)
    requires
        has_poi(pois, id),
    ensures
        0 <= poi_index(pois, id) < pois.len(),
        pois[poi_index(pois, id)].id == id,
        forall|j: int| 0 <= j < poi_index(pois, id) ==> pois[j].id != id,
{
    let w = choose|w: int| 0 <= w < pois.len() && pois[w].id == id;
    lemma_first_poi_from(pois, id, w);
}

proof fn lemma_first_poi_from(pois: Seq<Poi>, id: u32, w: int)
    requires
        0 <= w < pois.len(),
        pois[w].id == id,
    ensures
        exists|i: int| 0 <= i < pois.len() && pois[i].id == id && forall|j: int| 0 <= j < i ==> pois[j].id != id,
    decreases w,
{
    if exists|j: int| 0 <= j < w && pois[j].id == id {
        let j = choose|j: int| 0 <= j < w && pois[j].id == id;
        lemma_first_poi_from(pois, id, j);
    } else {
        assert(forall|j: int| 0 <= j < w ==> pois[j].id != id);
    }
}

pub proof fn lemma_poi_index(pois: Seq<Poi>, id: u32, i: int)
    requires
        0 <= i < pois.len(),
        pois[i].id == id,
        forall|j: int| 0 <= j < i ==> pois[j].id != id,
    ensures
        poi_index(pois, id) == i,
        has_poi(pois, id),
{
    let c = poi_index(pois, id);
    if c < i {
        assert(pois[c].id != id);
    } else if c > i {
        assert(pois[i].id != id);
    }
}

/// `after` differs from `before` only in its points of interest, their clocks,
/// the generator and the id counter.
pub open spec fn only_pois_changed(before: GameModel, after: GameModel) -> bool {
    &&& after.turn == before.turn
    &&& after.active_side == before.active_side
    &&& after.fleets == before.fleets
    &&& after.chart == before.chart
    &&& after.fog_version == before.fog_version
    &&& after.versions == before.versions
    &&& after.planets == before.planets
    &&& after.stockpile == before.stockpile
    &&& after.shipyard == before.shipyard
    &&& after.next_fleet_id == before.next_fleet_id
}

/// No two points of interest share a sector.
pub open spec fn one_per_sector(pois: Seq<Poi>) -> bool {
    forall|i: int, j: int| 0 <= i < j < pois.len() ==> pois[i].sector != pois[j].sector
}

/// Every point placed is a legal spot: in its sector, clear of planets and
/// other points, out of the player's sight, and in the band when one is given.
pub proof fn law_placed_points_are_legal(game: GameModel, sector: int, band: Option<Band>, state: u64, tries: nat)
    ensures
        place_spec(game, sector, band, state, tries).0 matches Some(p) ==> in_band(p, band) && placement_ok_spec(
            game,
            p,
            sector,
        ),
    decreases tries,
{
    if tries > 0 {
        let (point, next) = sample_spec(bounds_spec(corners_spec(sector)), band, state);
        if !(in_band(point, band) && placement_ok_spec(game, point, sector)) {
            law_placed_points_are_legal(game, sector, band, next, (tries - 1) as nat);
        }
    }
}

/// Placing a point touches nothing but the points, the generator and the ids,
/// and only ever adds one in `sector`.
pub proof fn lemma_place_and_add(game: GameModel, sector: int, band: Option<Band>)
    requires
        0 <= sector < REGION_COUNT,
    ensures
        only_pois_changed(game, place_and_add(game, sector, band)),
        place_and_add(game, sector, band).respawn == game.respawn,
        ({
            let after = place_and_add(game, sector, band).pois;
            ||| after == game.pois
            ||| (after.len() == game.pois.len() + 1 && after.drop_last() == game.pois && after.last().sector == sector)
        }),
{
    let (found, next) = place_spec(game, sector, band, game.rng, PLACEMENT_TRIES as nat);
    let after = place_and_add(game, sector, band).pois;
    if let Some(p) = found {
        assert(after == game.pois.push(
            Poi { id: game.next_poi_id, kind: PoiKind::DestroyedStation, position: p, sector: sector as usize },
        ));
        assert(after.drop_last() =~= game.pois);
    }
}

/// Adding a point to an empty sector keeps one point per sector.
pub proof fn lemma_add_keeps_one_per_sector(before: Seq<Poi>, after: Seq<Poi>, sector: int)
    requires
        one_per_sector(before),
        forall|j: int| 0 <= j < before.len() ==> before[j].sector != sector,
        after == before || (after.len() == before.len() + 1 && after.drop_last() == before && after.last().sector
            == sector),
    ensures
        one_per_sector(after),
{
    if after != before {
        assert forall|i: int, j: int| 0 <= i < j < after.len() implies after[i].sector != after[j].sector by {
            assert(after[i] == before[i]);
            if j < before.len() {
                assert(after[j] == before[j]);
            }
        }
    }
}

pub proof fn lemma_respawn_upto(game: GameModel, k: int)
    requires
        0 <= k <= REGION_COUNT,
        game.respawn.len() == REGION_COUNT,
    ensures
        only_pois_changed(game, respawn_upto(game, k)),
        respawn_upto(game, k).respawn.len() == REGION_COUNT,
        one_per_sector(game.pois) ==> one_per_sector(respawn_upto(game, k).pois),
    decreases k,
{
    if k > 0 {
        lemma_respawn_upto(game, k - 1);
        let before = respawn_upto(game, k - 1);
        let sector = k - 1;
        if !sector_occupied(before, sector) {
            let clock = before.respawn[sector];
            let left = if clock > 0 { (clock - 1) as u32 } else { 0u32 };
            let ticked = GameModel { respawn: before.respawn.update(sector, left), ..before };
            if left == 0 {
                lemma_place_and_add(ticked, sector, None);
                if one_per_sector(game.pois) {
                    lemma_add_keeps_one_per_sector(ticked.pois, place_and_add(ticked, sector, None).pois, sector);
                }
            }
        }
    }
}

/// An end of turn's respawns leave everything but the points alone and never
/// put two points in one sector.
pub proof fn law_respawns_keep_one_point_per_sector(game: GameModel)
    requires
        game.respawn.len() == REGION_COUNT,
        one_per_sector(game.pois),
    ensures
        only_pois_changed(game, advance_pois_spec(game)),
        one_per_sector(advance_pois_spec(game).pois),
{
    lemma_respawn_upto(game, REGION_COUNT as int);
}

pub proof fn lemma_seed_upto(game: GameModel, start: Point, home: Option<usize>, k: int)
    requires
        0 <= k <= REGION_COUNT,
        game.pois.len() == 0,
    ensures
        only_pois_changed(game, seed_upto(game, start, home, k)),
        seed_upto(game, start, home, k).respawn == game.respawn,
        one_per_sector(seed_upto(game, start, home, k).pois),
        forall|j: int| 0 <= j < seed_upto(game, start, home, k).pois.len() ==> (#[trigger] seed_upto(
            game,
            start,
            home,
            k,
        ).pois[j]).sector < k,
    decreases k,
{
    if k > 0 {
        lemma_seed_upto(game, start, home, k - 1);
        let before = seed_upto(game, start, home, k - 1);
        let band = starter_band(k - 1, start, home);
        lemma_place_and_add(before, k - 1, band);
        let after = place_and_add(before, k - 1, band).pois;
        lemma_add_keeps_one_per_sector(before.pois, after, k - 1);
        assert forall|j: int| 0 <= j < after.len() implies (#[trigger] after[j]).sector < k by {
            if j < before.pois.len() {
                assert(after[j] == before.pois[j]);
            }
        }
    }
}

/// Seeding a game with no points yet gives at most one point per sector and
/// changes nothing else but the generator and the ids.
pub proof fn law_seeding_puts_at_most_one_point_in_each_sector(game: GameModel)
    requires
        game.pois.len() == 0,
        game.fleets.len() > 0,
    ensures
        only_pois_changed(game, seed_spec(game)),
        seed_spec(game).respawn == game.respawn,
        one_per_sector(seed_spec(game).pois),
{
    let start = game.fleets[0].position;
    lemma_seed_upto(game, start, region_index_spec(start), REGION_COUNT as int);
}

/// Salvaging removes one point and keeps one point per sector.
pub proof fn law_salvage_keeps_one_point_per_sector(game: GameModel, id: u32)
    requires
        has_poi(game.pois, id),
        one_per_sector(game.pois),
    ensures
        one_per_sector(salvage_spec(game, id).1.pois),
        salvage_spec(game, id).1.pois.len() == game.pois.len() - 1,
        !has_poi(salvage_spec(game, id).1.pois, id) || exists|j: int| 0 <= j < game.pois.len() && j != poi_index(
            game.pois,
            id,
        ) && game.pois[j].id == id,
{
    lemma_first_poi(game.pois, id);
    let index = poi_index(game.pois, id);
    let after = salvage_spec(game, id).1.pois;
    assert(after == game.pois.remove(index));
    assert forall|i: int, j: int| 0 <= i < j < after.len() implies after[i].sector != after[j].sector by {
        let oi = if i < index { i } else { i + 1 };
        let oj = if j < index { j } else { j + 1 };
        assert(after[i] == game.pois[oi]);
        assert(after[j] == game.pois[oj]);
    }
    if has_poi(after, id) {
        let w = choose|w: int| 0 <= w < after.len() && after[w].id == id;
        let ow = if w < index { w } else { w + 1 };
        assert(game.pois[ow] == after[w]);
    }
}

/// Salvaging a wreck starts its sector's clock at 10 to 20 turns.
pub proof fn law_salvage_starts_a_ten_to_twenty_turn_clock(game: GameModel, id: u32)
    requires
        has_poi(game.pois, id),
        game.respawn.len() == REGION_COUNT,
        forall|i: int| 0 <= i < game.pois.len() ==> crate::world::poi_wf(#[trigger] game.pois[i]),
    ensures
        ({
            let sector = game.pois[poi_index(game.pois, id)].sector as int;
            let clock = salvage_spec(game, id).1.respawn[sector];
            RESPAWN_LOW <= clock <= RESPAWN_HIGH
        }),
{
    lemma_first_poi(game.pois, id);
    let poi = game.pois[poi_index(game.pois, id)];
    assert(crate::world::poi_wf(poi));
    let (loot, rolled) = roll_spec(poi.kind, game.rng);
    let raw = scrambled_output(xorshift(rolled));
    vstd::arithmetic::div_mod::lemma_mod_pos_bound(raw as int, 11);
}

} // verus!
