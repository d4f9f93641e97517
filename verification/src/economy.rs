//! The first gameplay loop: hold a ship near a planet to secure it, secured
//! planets pay resources each turn, and resources build ships at the home world.
use vstd::prelude::*;

use crate::geometry::{bounded, dist_sq, within, within_spec, Point};
use crate::layout::REGION_COUNT;
use crate::planets::{planet_spec, planets, Planet, HOME, PLANET_COUNT};
use crate::poi::{advance_pois_spec, respawns_due};
use crate::world::{fleet_wf, Fleet, FleetModel, Game, GameModel, Side, SCOUT_SPEED, SCOUT_VISION};

verus! {

/// A ship must hold within 200 units of a planet to secure it, and an enemy
/// within it contests the planet.
pub const SECURE_RANGE: i64 = 200_000_000_000;

#[derive(Clone, Copy, Debug, PartialEq, Eq, Structural)]
pub enum Resource {
    Alloys,
    Electronics,
}

impl Resource {
    pub fn name(self) -> (name: &'static str)
        ensures
            name@ == (match self {
                Resource::Alloys => "Alloys"@,
                Resource::Electronics => "Advanced Electronics"@,
            }),
    {
        match self {
            Resource::Alloys => "Alloys",
            Resource::Electronics => "Advanced Electronics",
        }
    }
}

/// Short names fit the popup; the Command Strip spells them out.
pub fn short(resource: Resource) -> (name: &'static str)
    ensures
        name@ == (match resource {
            Resource::Alloys => "Alloys"@,
            Resource::Electronics => "Electronics"@,
        }),
{
    match resource {
        Resource::Alloys => "Alloys",
        Resource::Electronics => "Electronics",
    }
}

/// Amounts of each resource: a stockpile, a cost, or a per-turn yield.
#[derive(Clone, Copy, Debug, PartialEq, Eq, Structural)]
pub struct Resources {
    pub alloys: u32,
    pub electronics: u32,
}

/// The sum of two amounts, resource by resource.
pub open spec fn sum(a: Resources, b: Resources) -> Resources {
    Resources { alloys: (a.alloys + b.alloys) as u32, electronics: (a.electronics + b.electronics) as u32 }
}

/// Whether `sum(a, b)` fits without overflow.
pub open spec fn sum_fits(a: Resources, b: Resources) -> bool {
    a.alloys + b.alloys <= u32::MAX && a.electronics + b.electronics <= u32::MAX
}

/// What is left of `a` after paying `cost`, never below zero.
pub open spec fn difference(a: Resources, cost: Resources) -> Resources {
    Resources {
        alloys: if a.alloys >= cost.alloys { (a.alloys - cost.alloys) as u32 } else { 0 },
        electronics: if a.electronics >= cost.electronics {
            (a.electronics - cost.electronics) as u32
        } else {
            0
        },
    }
}

pub open spec fn covers_spec(a: Resources, cost: Resources) -> bool {
    a.alloys >= cost.alloys && a.electronics >= cost.electronics
}

pub open spec fn amount_of(a: Resources, resource: Resource) -> u32 {
    match resource {
        Resource::Alloys => a.alloys,
        Resource::Electronics => a.electronics,
    }
}

impl Default for Resources {
    fn default() -> (r: Resources)
        ensures
            r.alloys == 0,
            r.electronics == 0,
    {
        Resources { alloys: 0, electronics: 0 }
    }
}

impl Resources {
    pub fn new(alloys: u32, electronics: u32) -> (r: Resources)
        ensures
            r.alloys == alloys,
            r.electronics == electronics,
    {
        Resources { alloys, electronics }
    }

    pub fn get(self, resource: Resource) -> (amount: u32)
        ensures
            amount == amount_of(self, resource),
    {
        match resource {
            Resource::Alloys => self.alloys,
            Resource::Electronics => self.electronics,
        }
    }

    pub fn plus(self, other: Resources) -> (total: Resources)
        requires
            sum_fits(self, other),
        ensures
            total == sum(self, other),
    {
        Resources {
            alloys: self.alloys + other.alloys,
            electronics: self.electronics + other.electronics,
        }
    }

    pub fn covers(self, cost: Resources) -> (enough: bool)
        ensures
            enough == covers_spec(self, cost),
    {
        self.alloys >= cost.alloys && self.electronics >= cost.electronics
    }

    /// Pay `cost`; an amount never goes below zero.
    pub fn minus(self, cost: Resources) -> (rest: Resources)
        ensures
            rest == difference(self, cost),
    {
        Resources {
            alloys: self.alloys.saturating_sub(cost.alloys),
            electronics: self.electronics.saturating_sub(cost.electronics),
        }
    }

    /// Whether `self` plus `other` fits without overflow.
    pub fn fits(self, other: Resources) -> (fits: bool)
        ensures
            fits == sum_fits(self, other),
    {
        (self.alloys as u64) + (other.alloys as u64) <= (u32::MAX as u64) && (self.electronics as u64)
            + (other.electronics as u64) <= (u32::MAX as u64)
    }

    pub fn is_empty(self) -> (empty: bool)
        ensures
            empty == (self.alloys == 0 && self.electronics == 0),
    {
        self.alloys == 0 && self.electronics == 0
    }
}

/// Paying back what was just added leaves the amount as it was.
pub proof fn law_minus_undoes_plus(a: Resources, b: Resources)
    requires
        sum_fits(a, b),
    ensures
        difference(sum(a, b), b) == a,
{
}

/// A stockpile that covers a cost, once charged and refunded, is what it was.
pub proof fn law_covered_cost_round_trip(stock: Resources, cost: Resources)
    requires
        covers_spec(stock, cost),
    ensures
        sum_fits(difference(stock, cost), cost),
        sum(difference(stock, cost), cost) == stock,
{
}

/// Adding amounts does not depend on their order.
pub proof fn law_sum_commutes(a: Resources, b: Resources)
    ensures
        sum_fits(a, b) == sum_fits(b, a),
        sum(a, b) == sum(b, a),
{
}

#[derive(Clone, Copy, Debug, PartialEq, Eq, Structural)]
pub enum ShipKind {
    Scout,
}

impl ShipKind {
    pub fn name(self) -> (name: &'static str)
        ensures
            name@ == "Scout"@,
    {
        match self {
            ShipKind::Scout => "Scout",
        }
    }

    pub open spec fn cost_spec(self) -> Resources {
        match self {
            ShipKind::Scout => Resources { alloys: 10, electronics: 5 },
        }
    }

    pub open spec fn build_turns_spec(self) -> u32 {
        match self {
            ShipKind::Scout => 2,
        }
    }

    /// Placeholder numbers from the Roadmap; Alva will tune them.
    pub fn cost(self) -> (cost: Resources)
        ensures
            cost == self.cost_spec(),
    {
        match self {
            ShipKind::Scout => Resources { alloys: 10, electronics: 5 },
        }
    }

    pub fn build_turns(self) -> (turns: u32)
        ensures
            turns == self.build_turns_spec(),
    {
        match self {
            ShipKind::Scout => 2,
        }
    }
}

/// A ship under construction at the home world.
#[derive(Clone, Copy, Debug, PartialEq, Eq, Structural)]
pub struct Build {
    pub kind: ShipKind,
    pub turns_left: u32,
}

/// What changes about a planet during play; the rest lives in the planet table.
#[derive(Clone, Copy, Debug, PartialEq, Eq, Structural)]
pub struct PlanetState {
    pub owner: Option<Side>,
    /// Turns of influence built up toward securing it for Farlight.
    pub influence: u32,
    /// A securing effort is under way.
    pub securing: bool,
}

/// Some fleet of `side` holds within range of `position`.
pub open spec fn fleet_in_range_spec(game: GameModel, side: Side, position: Point) -> bool {
    exists|i: int| 0 <= i < game.fleets.len() && game.fleets[i].owner == side && within_spec(
        #[trigger] game.fleets[i].position, position, SECURE_RANGE as int)
}

/// Some fleet that is not `side`'s sits within range of `position`.
pub open spec fn enemy_in_range_spec(game: GameModel, side: Side, position: Point) -> bool {
    exists|i: int| 0 <= i < game.fleets.len() && game.fleets[i].owner != side && within_spec(
        #[trigger] game.fleets[i].position, position, SECURE_RANGE as int)
}

/// A held planet is contested while an enemy of its holder is in range.
pub open spec fn contested_spec(game: GameModel, planet: int) -> bool {
    match game.planets[planet].owner {
        Some(owner) => enemy_in_range_spec(game, owner, planet_spec(planet).position),
        None => false,
    }
}

/// Planet `i` pays Farlight this turn: held and uncontested.
pub open spec fn pays_out(game: GameModel, i: int) -> bool {
    game.planets[i].owner == Some(Side::Player) && !contested_spec(game, i)
}

/// What the first `k` planets pay Farlight when the turn ends.
pub open spec fn income_upto(game: GameModel, k: int) -> Resources
    decreases k,
{
    if k <= 0 {
        Resources { alloys: 0, electronics: 0 }
    } else if pays_out(game, k - 1) {
        sum(income_upto(game, k - 1), planet_spec(k - 1).yield_per_turn)
    } else {
        income_upto(game, k - 1)
    }
}

/// What Farlight receives when this turn ends.
pub open spec fn income_spec(game: GameModel) -> Resources {
    income_upto(game, PLANET_COUNT as int)
}

pub proof fn lemma_income_bound(game: GameModel, k: int)
    requires
        0 <= k <= PLANET_COUNT,
    ensures
        income_upto(game, k).alloys <= 3 * k,
        income_upto(game, k).electronics <= k,
    decreases k,
{
    if k > 0 {
        lemma_income_bound(game, k - 1);
        crate::planets::lemma_planet_table(k - 1);
    }
}

/// A ship of Farlight's holds the planet and no enemy contests it.
pub open spec fn held_spec(game: GameModel, i: int) -> bool {
    fleet_in_range_spec(game, Side::Player, planet_spec(i).position) && !enemy_in_range_spec(
        game,
        Side::Player,
        planet_spec(i).position,
    )
}

/// One turn of a securing effort: influence grows while a ship holds the planet
/// and secures it at the planet's count; otherwise it decays, and the effort
/// ends when none is left.
pub open spec fn securing_step(state: PlanetState, held: bool, planet: Planet) -> PlanetState {
    if !state.securing {
        state
    } else if held {
        if state.influence + 1 >= planet.secure_turns {
            PlanetState { owner: Some(Side::Player), influence: 0, securing: false }
        } else {
            PlanetState { influence: (state.influence + 1) as u32, ..state }
        }
    } else {
        let left = if state.influence >= planet.decay { (state.influence - planet.decay) as u32 } else { 0u32 };
        PlanetState { influence: left, securing: left != 0, ..state }
    }
}

/// Every planet after one turn of securing.
pub open spec fn securing_all(game: GameModel) -> GameModel {
    GameModel {
        planets: Seq::new(PLANET_COUNT as nat, |i: int| securing_step(game.planets[i], held_spec(game, i), planet_spec(i))),
        ..game
    }
}

/// The stockpile after the turn's income.
pub open spec fn collect(game: GameModel) -> GameModel {
    GameModel { stockpile: sum(game.stockpile, income_spec(game)), ..game }
}

/// Everything that resolves when the player ends a turn, in order: securing
/// efforts tick, held worlds pay out, the shipyard works, and empty sectors
/// run their respawn clocks.
pub open spec fn end_player_turn_spec(game: GameModel) -> GameModel {
    advance_pois_spec(shipyard_step(collect(securing_all(game))))
}

/// A securing step keeps a planet's state well formed.
pub proof fn lemma_securing_step_wf(state: PlanetState, held: bool, i: int)
    requires
        0 <= i < PLANET_COUNT,
        crate::world::planet_state_wf(state, i),
    ensures
        crate::world::planet_state_wf(securing_step(state, held, planet_spec(i)), i),
{
    crate::planets::lemma_planet_table(i);
}

/// Launching a ship keeps the game well formed.
pub proof fn lemma_launch_wf(game: GameModel, kind: ShipKind)
    requires
        game.wf(),
    ensures
        launch_spec(game, kind).wf(),
{
    crate::planets::lemma_planet_table(HOME as int);
    let next = launch_spec(game, kind);
    assert forall|i: int| 0 <= i < next.fleets.len() implies fleet_wf(#[trigger] next.fleets[i]) by {
        if i < game.fleets.len() {
            assert(next.fleets[i] == game.fleets[i]);
        }
    }
}

/// `n` turns of a securing effort in a row, a ship holding throughout or not at all.
pub open spec fn steps_of(state: PlanetState, held: bool, planet: Planet, n: nat) -> PlanetState
    decreases n,
{
    if n == 0 {
        state
    } else {
        steps_of(securing_step(state, held, planet), held, planet, (n - 1) as nat)
    }
}

/// Holding a planet for the turns its effort still needs makes it Farlight's
/// and ends the effort.
pub proof fn law_holding_secures(state: PlanetState, i: int)
    requires
        0 <= i < PLANET_COUNT,
        crate::world::planet_state_wf(state, i),
        state.securing,
    ensures
        steps_of(state, true, planet_spec(i), (planet_spec(i).secure_turns - state.influence) as nat).owner == Some(
            Side::Player,
        ),
        !steps_of(state, true, planet_spec(i), (planet_spec(i).secure_turns - state.influence) as nat).securing,
    decreases planet_spec(i).secure_turns - state.influence,
{
    crate::planets::lemma_planet_table(i);
    let planet = planet_spec(i);
    let next = securing_step(state, true, planet);
    let n = (planet.secure_turns - state.influence) as nat;
    if state.influence + 1 >= planet.secure_turns {
        assert(n == 1);
        assert(steps_of(state, true, planet, n) == steps_of(next, true, planet, 0));
    } else {
        law_holding_secures(next, i);
        assert(steps_of(state, true, planet, n) == steps_of(next, true, planet, (n - 1) as nat));
    }
}

/// With no ship holding, influence never grows and the planet stays with its
/// holder; once the influence has had as many turns as it had points, and at
/// least one, the effort is over.
pub proof fn law_unheld_effort_decays(state: PlanetState, i: int, n: nat)
    requires
        0 <= i < PLANET_COUNT,
        crate::world::planet_state_wf(state, i),
    ensures
        steps_of(state, false, planet_spec(i), n).influence <= state.influence,
        steps_of(state, false, planet_spec(i), n).owner == state.owner,
        n >= state.influence && n >= 1 ==> !steps_of(state, false, planet_spec(i), n).securing,
    decreases n,
{
    crate::planets::lemma_planet_table(i);
    if n > 0 {
        let next = securing_step(state, false, planet_spec(i));
        lemma_securing_step_wf(state, false, i);
        law_unheld_effort_decays(next, i, (n - 1) as nat);
        if !next.securing {
            lemma_idle_stays_idle(next, false, planet_spec(i), (n - 1) as nat);
        }
    }
}

/// A planet with no effort under way stays as it is.
pub proof fn lemma_idle_stays_idle(state: PlanetState, held: bool, planet: Planet, n: nat)
    requires
        !state.securing,
    ensures
        steps_of(state, held, planet, n) == state,
    decreases n,
{
    if n > 0 {
        lemma_idle_stays_idle(state, held, planet, (n - 1) as nat);
    }
}

/// Income adds up: counting one planet more raises the income by exactly that
/// planet's yield when it pays out (held by Farlight and uncontested), and
/// leaves it as it was otherwise. So the income is the sum of the yields of
/// every paying planet.
pub proof fn law_income_adds_each_paying_yield(game: GameModel, k: int)
    requires
        1 <= k <= PLANET_COUNT,
    ensures
        income_upto(game, k).alloys == income_upto(game, k - 1).alloys + if pays_out(game, k - 1) {
            planet_spec(k - 1).yield_per_turn.alloys as int
        } else {
            0int
        },
        income_upto(game, k).electronics == income_upto(game, k - 1).electronics + if pays_out(game, k - 1) {
            planet_spec(k - 1).yield_per_turn.electronics as int
        } else {
            0int
        },
{
    lemma_income_bound(game, k - 1);
    crate::planets::lemma_planet_table(k - 1);
}

/// A planet pays Farlight exactly when Farlight holds it and no ship of another
/// side lies within 200 units of it.
pub proof fn law_paying_means_held_and_uncontested(game: GameModel, i: int)
    requires
        0 <= i < PLANET_COUNT,
    ensures
        pays_out(game, i) == (game.planets[i].owner == Some(Side::Player) && !exists|f: int|
            0 <= f < game.fleets.len() && game.fleets[f].owner != Side::Player && dist_sq(
                #[trigger] game.fleets[f].position,
                planet_spec(i).position,
            ) <= SECURE_RANGE * SECURE_RANGE),
{
}

/// Taking one more uncontested planet adds exactly its yield to the income:
/// the rest of the income stays as it was.
pub proof fn law_holding_another_planet_adds_its_yield(game: GameModel, j: int)
    requires
        0 <= j < PLANET_COUNT,
        game.planets.len() == PLANET_COUNT,
        game.planets[j].owner != Some(Side::Player),
        !enemy_in_range_spec(game, Side::Player, planet_spec(j).position),
    ensures
        ({
            let taken = GameModel {
                planets: game.planets.update(j, PlanetState { owner: Some(Side::Player), ..game.planets[j] }),
                ..game
            };
            &&& income_spec(taken).alloys == income_spec(game).alloys + planet_spec(j).yield_per_turn.alloys
            &&& income_spec(taken).electronics == income_spec(game).electronics
                + planet_spec(j).yield_per_turn.electronics
        }),
{
    let taken = GameModel {
        planets: game.planets.update(j, PlanetState { owner: Some(Side::Player), ..game.planets[j] }),
        ..game
    };
    lemma_taken_income(game, taken, j, PLANET_COUNT as int);
}

proof fn lemma_taken_income(game: GameModel, taken: GameModel, j: int, k: int)
    requires
        0 <= j < PLANET_COUNT,
        0 <= k <= PLANET_COUNT,
        game.planets.len() == PLANET_COUNT,
        game.planets[j].owner != Some(Side::Player),
        !enemy_in_range_spec(game, Side::Player, planet_spec(j).position),
        taken == (GameModel {
            planets: game.planets.update(j, PlanetState { owner: Some(Side::Player), ..game.planets[j] }),
            ..game
        }),
    ensures
        income_upto(taken, k).alloys == income_upto(game, k).alloys + if j < k {
            planet_spec(j).yield_per_turn.alloys as int
        } else {
            0int
        },
        income_upto(taken, k).electronics == income_upto(game, k).electronics + if j < k {
            planet_spec(j).yield_per_turn.electronics as int
        } else {
            0int
        },
    decreases k,
{
    if k > 0 {
        lemma_taken_income(game, taken, j, k - 1);
        law_income_adds_each_paying_yield(game, k);
        law_income_adds_each_paying_yield(taken, k);
        lemma_income_bound(game, k);
        lemma_income_bound(taken, k);
        if k - 1 != j {
            assert(taken.planets[k - 1] == game.planets[k - 1]);
            assert(pays_out(taken, k - 1) == pays_out(game, k - 1));
        } else {
            assert(pays_out(taken, j));
            assert(!pays_out(game, j));
        }
    }
}

/// With no ship holding, one turn lowers an effort's influence by exactly the
/// planet's decay, never below zero; the effort ends just when nothing is left,
/// and the planet keeps its holder.
pub proof fn law_unheld_influence_falls_by_the_decay(state: PlanetState, i: int)
    requires
        0 <= i < PLANET_COUNT,
        state.securing,
    ensures
        securing_step(state, false, planet_spec(i)).influence == if state.influence - planet_spec(i).decay > 0 {
            state.influence - planet_spec(i).decay
        } else {
            0int
        },
        securing_step(state, false, planet_spec(i)).securing == (state.influence - planet_spec(i).decay > 0),
        securing_step(state, false, planet_spec(i)).owner == state.owner,
{
}

/// While a ship holds it, one turn adds exactly one point of influence, until
/// the count is reached and the planet becomes Farlight's.
pub proof fn law_held_influence_grows_by_one(state: PlanetState, i: int)
    requires
        0 <= i < PLANET_COUNT,
        state.securing,
        state.influence < planet_spec(i).secure_turns,
    ensures
        state.influence + 1 < planet_spec(i).secure_turns ==> securing_step(state, true, planet_spec(i)).influence
            == state.influence + 1 && securing_step(state, true, planet_spec(i)).securing
            && securing_step(state, true, planet_spec(i)).owner == state.owner,
        state.influence + 1 == planet_spec(i).secure_turns ==> securing_step(state, true, planet_spec(i)).owner
            == Some(Side::Player) && !securing_step(state, true, planet_spec(i)).securing,
{
}

/// When no world pays out (none held, or every held world contested by an
/// enemy ship in range) the turn brings nothing.
pub proof fn law_no_paying_world_means_no_income(game: GameModel, k: int)
    requires
        0 <= k <= PLANET_COUNT,
        forall|i: int| 0 <= i < k ==> !pays_out(game, i),
    ensures
        income_upto(game, k) == (Resources { alloys: 0, electronics: 0 }),
    decreases k,
{
    if k > 0 {
        law_no_paying_world_means_no_income(game, k - 1);
    }
}

/// Decimal digits of `n`, most significant first.
pub open spec fn decimal(n: nat) -> Seq<char>
    decreases n,
{
    if n < 10 {
        seq![digit_char(n)]
    } else {
        decimal(n / 10).push(digit_char(n % 10))
    }
}

pub open spec fn digit_char(d: nat) -> char {
    if d == 0 {
        '0'
    } else if d == 1 {
        '1'
    } else if d == 2 {
        '2'
    } else if d == 3 {
        '3'
    } else if d == 4 {
        '4'
    } else if d == 5 {
        '5'
    } else if d == 6 {
        '6'
    } else if d == 7 {
        '7'
    } else if d == 8 {
        '8'
    } else {
        '9'
    }
}

pub open spec fn ship_kind_name(kind: ShipKind) -> Seq<char> {
    match kind {
        ShipKind::Scout => "Scout"@,
    }
}

/// How many of the first `k` fleets belong to Farlight.
pub open spec fn player_fleets(fleets: Seq<FleetModel>, k: int) -> nat
    decreases k,
{
    if k <= 0 {
        0
    } else {
        player_fleets(fleets, k - 1) + if fleets[k - 1].owner == Side::Player { 1nat } else { 0nat }
    }
}

/// Where a finished ship appears: beside the home world.
pub open spec fn launch_point() -> Point {
    Point { x: (planet_spec(HOME as int).position.x + 40_000_000_000) as i64, y: (planet_spec(HOME as int).position.y + 30_000_000_000) as i64 }
}

/// A finished ship appears beside the home world, ready next turn, named for
/// its kind and Farlight's fleet count.
pub open spec fn launch_spec(game: GameModel, kind: ShipKind) -> GameModel {
    let count = player_fleets(game.fleets, game.fleets.len() as int) + 1;
    let ship = FleetModel {
        id: game.next_fleet_id,
        name: ship_kind_name(kind) + " "@ + decimal(count),
        owner: Side::Player,
        position: launch_point(),
        speed: SCOUT_SPEED,
        remaining: 0,
        vision: SCOUT_VISION,
    };
    GameModel { fleets: game.fleets.push(ship), next_fleet_id: (game.next_fleet_id + 1) as u32, ..game }
}

/// The shipyard works one turn; a ship that is done launches.
pub open spec fn shipyard_step(game: GameModel) -> GameModel {
    match game.shipyard {
        Some(build) => if build.turns_left <= 1 {
            launch_spec(GameModel { shipyard: None, ..game }, build.kind)
        } else {
            GameModel { shipyard: Some(Build { turns_left: (build.turns_left - 1) as u32, ..build }), ..game }
        },
        None => game,
    }
}

/// The shipyard works one turn at a time: a build with turns to go has one
/// fewer, and a build on its last turn leaves the yard empty and launches one
/// new ship of Farlight's beside the home world, with the next fleet id and no
/// movement until the next turn. Nothing else changes.
pub proof fn law_the_shipyard_counts_down_then_launches(game: GameModel)
    requires
        game.shipyard is Some,
        game.next_fleet_id < u32::MAX,
    ensures
        ({
            let build = game.shipyard.unwrap();
            let after = shipyard_step(game);
            &&& build.turns_left > 1 ==> after.shipyard == Some(Build { kind: build.kind, turns_left: (build.turns_left - 1) as u32 })
                && after.fleets == game.fleets && after.next_fleet_id == game.next_fleet_id
            &&& build.turns_left <= 1 ==> after.shipyard is None && after.fleets.len() == game.fleets.len() + 1
                && after.fleets.take(game.fleets.len() as int) == game.fleets
                && after.fleets.last().id == game.next_fleet_id && after.next_fleet_id == game.next_fleet_id + 1
                && after.fleets.last().owner == Side::Player && after.fleets.last().remaining == 0
                && after.fleets.last().speed == SCOUT_SPEED && after.fleets.last().position == launch_point()
            &&& after.stockpile == game.stockpile && after.planets == game.planets && after.pois == game.pois
        }),
{
    let build = game.shipyard.unwrap();
    if build.turns_left <= 1 {
        let after = shipyard_step(game);
        assert(after.fleets.take(game.fleets.len() as int) =~= game.fleets);
    }
}

/// Room for the point-of-interest ids this turn's respawns may hand out: one
/// for each empty sector whose clock runs out.
pub open spec fn poi_ids_have_room(game: GameModel) -> bool {
    game.next_poi_id + respawns_due(game.pois, game.respawn, REGION_COUNT as int) <= u32::MAX
}

/// The ship in the shipyard launches when this turn ends.
pub open spec fn launch_due(game: GameModel) -> bool {
    game.shipyard matches Some(build) && build.turns_left <= 1
}

/// Room for what the player's end of turn adds: the turn's income on top of
/// the stockpile, an id for each point that may appear, and the id and the
/// count of a ship that launches.
pub open spec fn end_turn_room(game: GameModel) -> bool {
    &&& sum_fits(game.stockpile, income_spec(securing_all(game)))
    &&& poi_ids_have_room(game)
    &&& launch_due(game) ==> game.next_fleet_id < u32::MAX && game.fleets.len() < usize::MAX
}

fn digit(d: usize) -> (text: &'static str)
    requires
        d < 10,
    ensures
        text@ == seq![digit_char(d as nat)],
{
    proof {
        reveal_strlit("0");
        reveal_strlit("1");
        reveal_strlit("2");
        reveal_strlit("3");
        reveal_strlit("4");
        reveal_strlit("5");
        reveal_strlit("6");
        reveal_strlit("7");
        reveal_strlit("8");
        reveal_strlit("9");
    }
    if d == 0 {
        "0"
    } else if d == 1 {
        "1"
    } else if d == 2 {
        "2"
    } else if d == 3 {
        "3"
    } else if d == 4 {
        "4"
    } else if d == 5 {
        "5"
    } else if d == 6 {
        "6"
    } else if d == 7 {
        "7"
    } else if d == 8 {
        "8"
    } else {
        "9"
    }
}

/// Write `n` in decimal at the end of `text`.
pub fn append_decimal(text: &mut String, n: usize)
    ensures
        final(text)@ == old(text)@ + decimal(n as nat),
    decreases n,
{
    if n >= 10 {
        append_decimal(text, n / 10);
    }
    text.append(digit(n % 10));
    proof {
        if n < 10 {
            assert(decimal(n as nat) == seq![digit_char(n as nat)]);
        }
    }
    assert(text@ =~= old(text)@ + decimal(n as nat));
}

/// A ship's name: its kind and a number.
pub fn fleet_name(kind: ShipKind, count: usize) -> (name: String)
    ensures
        name@ == ship_kind_name(kind) + " "@ + decimal(count as nat),
{
    proof {
        reveal_strlit(" ");
        reveal_strlit("Scout");
    }
    let mut name = String::from_str(kind.name());
    name.append(" ");
    append_decimal(&mut name, count);
    name
}

impl Game {
    /// Whether the player's end of turn has room for all it adds.
    pub fn end_turn_room(&self) -> (room: bool)
        requires
            self@.wf(),
        ensures
            room == end_turn_room(self@),
    {
        let income = self.income_after_securing();
        let fits = self.stockpile.fits(income);
        let due = self.respawns_due();
        proof {
            crate::poi::lemma_respawns_due_grow(self@.pois, self@.respawn, REGION_COUNT as int, REGION_COUNT as int);
        }
        let ids = (self.next_poi_id as u64) + due <= (u32::MAX as u64);
        let due = match self.shipyard {
            Some(build) => build.turns_left <= 1,
            None => false,
        };
        fits && ids && (!due || (self.next_fleet_id < u32::MAX && self.fleets.len() < usize::MAX))
    }

    pub fn home_planet() -> (index: usize)
        ensures
            index == HOME,
            planet_spec(index as int).home,
            forall|i: int| 0 <= i < PLANET_COUNT && planet_spec(i).home ==> i == index,
    {
        let table = planets();
        let mut i: usize = 0;
        while i < table.len()
            invariant
                table@.len() == PLANET_COUNT,
                forall|k: int| 0 <= k < PLANET_COUNT ==> #[trigger] table@[k] == planet_spec(k),
                i <= HOME,
            decreases PLANET_COUNT - i,
        {
            proof {
                crate::planets::lemma_planet_table(i as int);
            }
            if table[i].home {
                proof {
                    assert forall|k: int| 0 <= k < PLANET_COUNT && planet_spec(k).home implies k == i by {
                        crate::planets::lemma_planet_table(k);
                    }
                }
                return i;
            }
            i += 1;
        }
        proof {
            crate::planets::lemma_planet_table(HOME as int);
        }
        HOME
    }

    pub fn fleet_in_range(&self, side: Side, position: Point) -> (found: bool)
        requires
            self@.wf(),
            bounded(position),
        ensures
            found == fleet_in_range_spec(self@, side, position),
    {
        let mut i: usize = 0;
        while i < self.fleets.len()
            invariant
                self@.wf(),
                bounded(position),
                i <= self.fleets@.len(),
                forall|j: int| 0 <= j < i ==> !(self@.fleets[j].owner == side && within_spec(
                    #[trigger] self@.fleets[j].position, position, SECURE_RANGE as int)),
            decreases self.fleets@.len() - i,
        {
            assert(fleet_wf(self@.fleets[i as int]));
            if self.fleets[i].owner == side && within(self.fleets[i].position, position, SECURE_RANGE) {
                assert(self@.fleets[i as int].position == self.fleets[i as int].position);
                return true;
            }
            i += 1;
        }
        false
    }

    /// An enemy of `side` is close enough to contest the planet.
    pub fn enemy_in_range(&self, side: Side, position: Point) -> (found: bool)
        requires
            self@.wf(),
            bounded(position),
        ensures
            found == enemy_in_range_spec(self@, side, position),
    {
        let mut i: usize = 0;
        while i < self.fleets.len()
            invariant
                self@.wf(),
                bounded(position),
                i <= self.fleets@.len(),
                forall|j: int| 0 <= j < i ==> !(self@.fleets[j].owner != side && within_spec(
                    #[trigger] self@.fleets[j].position, position, SECURE_RANGE as int)),
            decreases self.fleets@.len() - i,
        {
            assert(fleet_wf(self@.fleets[i as int]));
            if self.fleets[i].owner != side && within(self.fleets[i].position, position, SECURE_RANGE) {
                assert(self@.fleets[i as int].position == self.fleets[i as int].position);
                return true;
            }
            i += 1;
        }
        false
    }

    /// A held planet pays nothing while an enemy ship sits within range.
    pub fn contested(&self, planet: usize) -> (contested: bool)
        requires
            self@.wf(),
            planet < PLANET_COUNT,
        ensures
            contested == contested_spec(self@, planet as int),
    {
        let table = planets();
        proof {
            crate::planets::lemma_planet_table(planet as int);
        }
        match self.planets[planet].owner {
            Some(owner) => self.enemy_in_range(owner, table[planet].position),
            None => false,
        }
    }

    /// What Farlight will receive when this turn ends.
    pub fn income(&self) -> (income: Resources)
        requires
            self@.wf(),
        ensures
            income == income_spec(self@),
            income.alloys <= 78,
            income.electronics <= 26,
    {
        let table = planets();
        let mut total = Resources { alloys: 0, electronics: 0 };
        let mut i: usize = 0;
        while i < PLANET_COUNT
            invariant
                self@.wf(),
                table@.len() == PLANET_COUNT,
                forall|k: int| 0 <= k < PLANET_COUNT ==> #[trigger] table@[k] == planet_spec(k),
                i <= PLANET_COUNT,
                total == income_upto(self@, i as int),
            decreases PLANET_COUNT - i,
        {
            proof {
                lemma_income_bound(self@, i as int);
                crate::planets::lemma_planet_table(i as int);
            }
            if self.planets[i].owner == Some(Side::Player) && !self.contested(i) {
                total = total.plus(table[i].yield_per_turn);
            }
            i += 1;
        }
        proof {
            lemma_income_bound(self@, PLANET_COUNT as int);
        }
        total
    }

    /// Planet `index`'s state after this turn's securing.
    fn secured(&self, index: usize) -> (state: PlanetState)
        requires
            self@.wf(),
            index < PLANET_COUNT,
        ensures
            state == securing_step(self@.planets[index as int], held_spec(self@, index as int), planet_spec(index as int)),
    {
        let table = planets();
        proof {
            crate::planets::lemma_planet_table(index as int);
        }
        let mut state = self.planets[index];
        if !state.securing {
            return state;
        }
        let position = table[index].position;
        let held = self.fleet_in_range(Side::Player, position) && !self.enemy_in_range(Side::Player, position);
        if held {
            state.influence = state.influence + 1;
            if state.influence >= table[index].secure_turns {
                state.owner = Some(Side::Player);
                state.influence = 0;
                state.securing = false;
            }
        } else {
            state.influence = state.influence.saturating_sub(table[index].decay);
            if state.influence == 0 {
                state.securing = false;
            }
        }
        state
    }

    fn advance_securing(&mut self, index: usize)
        requires
            old(self)@.wf(),
            index < PLANET_COUNT,
        ensures
            final(self)@ == (GameModel {
                planets: old(self)@.planets.update(
                    index as int,
                    securing_step(old(self)@.planets[index as int], held_spec(old(self)@, index as int), planet_spec(index as int)),
                ),
                ..old(self)@
            }),
    {
        let state = self.secured(index);
        self.planets.set(index, state);
    }

    /// What Farlight will receive when this turn ends, once the turn's
    /// securing efforts have resolved.
    pub fn income_after_securing(&self) -> (income: Resources)
        requires
            self@.wf(),
        ensures
            income == income_spec(securing_all(self@)),
            income.alloys <= 78,
            income.electronics <= 26,
    {
        let ghost secured = securing_all(self@);
        let table = planets();
        let mut total = Resources { alloys: 0, electronics: 0 };
        let mut i: usize = 0;
        while i < PLANET_COUNT
            invariant
                self@.wf(),
                secured == securing_all(self@),
                table@.len() == PLANET_COUNT,
                forall|k: int| 0 <= k < PLANET_COUNT ==> #[trigger] table@[k] == planet_spec(k),
                i <= PLANET_COUNT,
                total == income_upto(secured, i as int),
            decreases PLANET_COUNT - i,
        {
            proof {
                lemma_income_bound(secured, i as int);
                crate::planets::lemma_planet_table(i as int);
            }
            let state = self.secured(i);
            assert(secured.planets[i as int] == state);
            assert(secured.fleets == self@.fleets);
            if state.owner == Some(Side::Player) && !self.enemy_in_range(Side::Player, table[i].position) {
                total = total.plus(table[i].yield_per_turn);
            }
            i += 1;
        }
        proof {
            lemma_income_bound(secured, PLANET_COUNT as int);
        }
        total
    }

    /// Everything that resolves when the player ends a turn: securing efforts
    /// tick, held worlds pay out, the shipyard works, and empty sectors run
    /// their respawn clocks.
    pub fn end_player_turn(&mut self)
        requires
            old(self)@.wf(),
            end_turn_room(old(self)@),
        ensures
            final(self)@ == end_player_turn_spec(old(self)@),
            final(self)@.wf(),
    {
        let ghost first = self@;
        let mut index: usize = 0;
        while index < PLANET_COUNT
            invariant
                first == old(self)@,
                first.wf(),
                index <= PLANET_COUNT,
                self@ == (GameModel { planets: self@.planets, ..first }),
                self@.planets.len() == PLANET_COUNT,
                forall|i: int| 0 <= i < index ==> #[trigger] self@.planets[i] == securing_step(first.planets[i],
                    held_spec(first, i), planet_spec(i)),
                forall|i: int| index <= i < PLANET_COUNT ==> #[trigger] self@.planets[i] == first.planets[i],
                self@.wf(),
            decreases PLANET_COUNT - index,
        {
            let ghost before = self@;
            self.advance_securing(index);
            proof {
                lemma_securing_step_wf(before.planets[index as int], held_spec(before, index as int), index as int);
                assert forall|i: int| 0 <= i < PLANET_COUNT implies crate::world::planet_state_wf(
                    #[trigger] self@.planets[i], i) by {
                    if i != index {
                        assert(self@.planets[i] == before.planets[i]);
                    }
                }
            }
            index += 1;
        }
        assert(self@.planets =~= securing_all(first).planets);
        let income = self.income();
        self.stockpile = self.stockpile.plus(income);
        assert(self@ == collect(securing_all(first)));
        match self.shipyard {
            Some(build) => {
                if build.turns_left <= 1 {
                    self.shipyard = None;
                    proof {
                        lemma_launch_wf(self@, build.kind);
                    }
                    self.launch(build.kind);
                } else {
                    self.shipyard = Some(Build { kind: build.kind, turns_left: build.turns_left - 1 });
                }
            },
            None => {},
        }
        assert(self@ == shipyard_step(collect(securing_all(first))));
        self.advance_pois();
    }

    /// A finished ship appears beside the home world, ready next turn.
    fn launch(&mut self, kind: ShipKind)
        requires
            old(self)@.wf(),
            old(self)@.next_fleet_id < u32::MAX,
            old(self)@.fleets.len() < usize::MAX,
        ensures
            final(self)@ == launch_spec(old(self)@, kind),
    {
        let table = planets();
        let home = table[Self::home_planet()].position;
        proof {
            crate::planets::lemma_planet_table(HOME as int);
        }
        let mut count: usize = 0;
        let mut i: usize = 0;
        while i < self.fleets.len()
            invariant
                i <= self.fleets@.len(),
                self.fleets@.len() < usize::MAX,
                count == player_fleets(self@.fleets, i as int),
                count <= i,
            decreases self.fleets@.len() - i,
        {
            if self.fleets[i].owner == Side::Player {
                count += 1;
            }
            i += 1;
        }
        let id = self.next_fleet_id;
        self.next_fleet_id = self.next_fleet_id + 1;
        let ghost before = self.fleets@;
        self.fleets.push(Fleet {
            id,
            name: fleet_name(kind, count + 1),
            owner: Side::Player,
            position: Point { x: home.x + 40_000_000_000, y: home.y + 30_000_000_000 },
            speed: SCOUT_SPEED,
            remaining: 0,
            vision: SCOUT_VISION,
        });
        assert(self@.fleets =~= launch_spec(old(self)@, kind).fleets);
    }
}

} // verus!
