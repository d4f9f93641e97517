//! Shared rules for previews, committed orders, and future AI orders.
//!
//! Validation is read-only, and a committed order goes through the very same
//! validation: what `preview` answers is what `execute` does.
use vstd::prelude::*;

use crate::economy::{
    covers_spec, difference, end_player_turn_spec, enemy_in_range_spec, fleet_in_range_spec, end_turn_room,
    Build, PlanetState, Resources, ShipKind,
};
use crate::fog::{next_version, next_version_spec, path_revealed, path_steps};
use crate::geometry::{
    along, bounded, dist_sq, distance, floor_sqrt, is_floor_sqrt, on_map, part_along, within, within_spec, Point, COORD_LIMIT,
    WORLD_HEIGHT, WORLD_WIDTH,
};
use crate::planets::{planet_spec, planets, PLANET_COUNT};
use crate::economy::{collect, securing_all, shipyard_step};
use crate::layout::REGION_COUNT;
use crate::poi::{
    has_poi, lemma_respawn_upto, law_salvage_keeps_one_point_per_sector, one_per_sector, poi_index, salvage_room,
    salvage_spec,
    SALVAGE_RANGE,
};
use crate::world::{fleet_wf, FleetModel, Game, GameModel, Side};

verus! {

/// Moves and budgets at or below this many fixed-point steps count as nothing.
pub const EPSILON: i64 = 10;

/// What the interface and a future planner say about an action.
pub struct ActionDefinition {
    pub name: &'static str,
    pub description: &'static str,
}

#[derive(Clone, Copy, Debug, PartialEq, Eq, Structural)]
pub enum Action {
    MoveFleet { fleet_id: u32, destination: Point },
    SecurePlanet { planet: usize },
    BuildShip { kind: ShipKind },
    Salvage { poi: u32 },
    EndTurn,
}

/// What an action will do, as validation found it.
#[derive(Clone, Copy, Debug, PartialEq, Eq, Structural)]
pub enum Preview {
    Move { destination: Point, cost: i64 },
    Secure { planet: usize },
    Build { kind: ShipKind, cost: Resources },
    Salvage { poi: u32 },
    EndTurn,
}

#[derive(Clone, Copy, Debug, PartialEq, Eq, Structural)]
pub enum ActionError {
    NotYourTurn,
    UnknownFleet,
    NotYourFleet,
    NoMovement,
    InvalidDestination,
    AlreadyThere,
    UnknownPlanet,
    AlreadyYours,
    AlreadySecuring,
    NoShipInRange,
    EnemyInRange,
    NoShipyard,
    ShipyardBusy,
    CannotAfford,
    UnknownPoi,
    NoStockpile,
    NoSalvageShip,
    TurnLimit,
}

pub open spec fn error_text(error: ActionError) -> Seq<char> {
    match error {
        ActionError::NotYourTurn => "It is not your turn."@,
        ActionError::UnknownFleet => "That fleet no longer exists."@,
        ActionError::NotYourFleet => "You do not control that fleet."@,
        ActionError::NoMovement => "No movement remaining this turn."@,
        ActionError::InvalidDestination => "Choose a valid destination."@,
        ActionError::AlreadyThere => "The fleet is already at that destination or map edge."@,
        ActionError::UnknownPlanet => "That planet does not exist."@,
        ActionError::AlreadyYours => "That world is already yours."@,
        ActionError::AlreadySecuring => "A securing effort is already under way there."@,
        ActionError::NoShipInRange => "No ship within 200 units to secure it."@,
        ActionError::EnemyInRange => "An enemy ship within 200 units contests it."@,
        ActionError::NoShipyard => "Only the Farlight home world has a shipyard."@,
        ActionError::ShipyardBusy => "The shipyard is already building a ship."@,
        ActionError::CannotAfford => "Not enough resources."@,
        ActionError::UnknownPoi => "That point of interest is gone."@,
        ActionError::NoStockpile => "Only Farlight keeps a stockpile."@,
        ActionError::NoSalvageShip => "No ship within 100 units to salvage it."@,
        ActionError::TurnLimit => "The turn counter has reached its limit."@,
    }
}

impl ActionError {
    /// What the player reads.
    pub fn message(self) -> (text: &'static str)
        ensures
            text@ == error_text(self),
    {
        match self {
            ActionError::NotYourTurn => "It is not your turn.",
            ActionError::UnknownFleet => "That fleet no longer exists.",
            ActionError::NotYourFleet => "You do not control that fleet.",
            ActionError::NoMovement => "No movement remaining this turn.",
            ActionError::InvalidDestination => "Choose a valid destination.",
            ActionError::AlreadyThere => "The fleet is already at that destination or map edge.",
            ActionError::UnknownPlanet => "That planet does not exist.",
            ActionError::AlreadyYours => "That world is already yours.",
            ActionError::AlreadySecuring => "A securing effort is already under way there.",
            ActionError::NoShipInRange => "No ship within 200 units to secure it.",
            ActionError::EnemyInRange => "An enemy ship within 200 units contests it.",
            ActionError::NoShipyard => "Only the Farlight home world has a shipyard.",
            ActionError::ShipyardBusy => "The shipyard is already building a ship.",
            ActionError::CannotAfford => "Not enough resources.",
            ActionError::UnknownPoi => "That point of interest is gone.",
            ActionError::NoStockpile => "Only Farlight keeps a stockpile.",
            ActionError::NoSalvageShip => "No ship within 100 units to salvage it.",
            ActionError::TurnLimit => "The turn counter has reached its limit.",
        }
    }
}

pub open spec fn action_name(action: Action) -> Seq<char> {
    match action {
        Action::MoveFleet { .. } => "Move Fleet"@,
        Action::SecurePlanet { .. } => "Secure Planet"@,
        Action::BuildShip { .. } => "Build Ship"@,
        Action::Salvage { .. } => "Salvage"@,
        Action::EndTurn => "End Turn"@,
    }
}

pub open spec fn action_description(action: Action) -> Seq<char> {
    match action {
        Action::MoveFleet { .. } => "Move to the preview endpoint, spending only the distance traveled."@,
        Action::SecurePlanet { .. } =>
            "Hold a ship within 200 units for the turns shown. Influence decays when no ship stays."@,
        Action::BuildShip { .. } =>
            "Spend resources at the shipyard. The ship launches from the home world when done."@,
        Action::Salvage { .. } => "Haul what is left home. A ship must be within 100 units."@,
        Action::EndTurn => "Finish your orders and let the Dominion take its turn."@,
    }
}

impl Action {
    pub fn definition(self) -> (definition: ActionDefinition)
        ensures
            definition.name@ == action_name(self),
            definition.description@ == action_description(self),
    {
        match self {
            Action::MoveFleet { .. } => ActionDefinition {
                name: "Move Fleet",
                description: "Move to the preview endpoint, spending only the distance traveled.",
            },
            Action::SecurePlanet { .. } => ActionDefinition {
                name: "Secure Planet",
                description: "Hold a ship within 200 units for the turns shown. Influence decays when no ship stays.",
            },
            Action::BuildShip { .. } => ActionDefinition {
                name: "Build Ship",
                description: "Spend resources at the shipyard. The ship launches from the home world when done.",
            },
            Action::Salvage { .. } => ActionDefinition {
                name: "Salvage",
                description: "Haul what is left home. A ship must be within 100 units.",
            },
            Action::EndTurn => ActionDefinition {
                name: "End Turn",
                description: "Finish your orders and let the Dominion take its turn.",
            },
        }
    }
}

/// The first fleet with `id` at or after index `from`.
pub open spec fn find_fleet_from(fleets: Seq<FleetModel>, id: u32, from: int) -> Option<int>
    decreases fleets.len() - from,
{
    if from < 0 || from >= fleets.len() {
        None
    } else if fleets[from].id == id {
        Some(from)
    } else {
        find_fleet_from(fleets, id, from + 1)
    }
}

/// The index of the first fleet with `id`, if there is one.
pub open spec fn fleet_lookup(fleets: Seq<FleetModel>, id: u32) -> Option<int> {
    find_fleet_from(fleets, id, 0)
}

pub proof fn lemma_find_fleet_from(fleets: Seq<FleetModel>, id: u32, from: int)
    requires
        0 <= from <= fleets.len(),
    ensures
        match find_fleet_from(fleets, id, from) {
            Some(k) => from <= k < fleets.len() && fleets[k].id == id && forall|j: int| from <= j < k ==> fleets[j].id
                != id,
            None => forall|j: int| from <= j < fleets.len() ==> fleets[j].id != id,
        },
    decreases fleets.len() - from,
{
    if from < fleets.len() && fleets[from].id != id {
        lemma_find_fleet_from(fleets, id, from + 1);
    }
}

/// `travel` cut short where the ray from `start` along `delta` (of length
/// `distance`) leaves `0..=limit` on this axis.
pub open spec fn clip_axis(travel: int, start: int, delta: int, limit: int, distance: int) -> int {
    if delta > 0 {
        let room = (limit - start) * distance / delta;
        if room < travel { room } else { travel }
    } else if delta < 0 {
        let room = start * distance / (-delta);
        if room < travel { room } else { travel }
    } else {
        travel
    }
}

/// How far a fleet at `from` with `remaining` movement gets toward `to`,
/// `distance` away: capped at its budget, then where the ray meets the border.
pub open spec fn move_travel(from: Point, to: Point, distance: int, remaining: int) -> int {
    let reach = if distance < remaining { distance } else { remaining };
    let across = clip_axis(reach, from.x as int, to.x - from.x, WORLD_WIDTH as int, distance);
    clip_axis(across, from.y as int, to.y - from.y, WORLD_HEIGHT as int, distance)
}

/// The point `travel` along the way from `from` toward `to`, `distance` away.
pub open spec fn move_target(from: Point, to: Point, travel: int, distance: int) -> Point {
    Point {
        x: (from.x + along(to.x - from.x, travel, distance)) as i64,
        y: (from.y + along(to.y - from.y, travel, distance)) as i64,
    }
}

/// Where a fleet at `from` with `remaining` movement ends up when ordered
/// toward `destination`, and what it costs.
pub open spec fn course_spec(from: Point, remaining: int, destination: Point) -> Result<Preview, ActionError> {
    if !bounded(destination) {
        Err(ActionError::InvalidDestination)
    } else {
        let distance = floor_sqrt(dist_sq(from, destination) as nat) as int;
        if distance <= EPSILON {
            Err(ActionError::AlreadyThere)
        } else {
            let travel = move_travel(from, destination, distance, remaining);
            if travel <= EPSILON {
                Err(ActionError::AlreadyThere)
            } else {
                Ok(Preview::Move { destination: move_target(from, destination, travel, distance), cost: travel as i64 })
            }
        }
    }
}

/// Validation of a move order.
pub open spec fn move_spec(game: GameModel, actor: Side, fleet_id: u32, destination: Point) -> Result<Preview, ActionError> {
    match fleet_lookup(game.fleets, fleet_id) {
        None => Err(ActionError::UnknownFleet),
        Some(index) => {
            let fleet = game.fleets[index];
            if fleet.owner != actor {
                Err(ActionError::NotYourFleet)
            } else if fleet.remaining <= EPSILON {
                Err(ActionError::NoMovement)
            } else {
                course_spec(fleet.position, fleet.remaining as int, destination)
            }
        },
    }
}

/// Some ship of `side` is close enough to salvage what lies at `position`.
pub open spec fn salvager_in_range(game: GameModel, side: Side, position: Point) -> bool {
    exists|i: int| 0 <= i < game.fleets.len() && game.fleets[i].owner == side && within_spec(
        #[trigger] game.fleets[i].position, position, SALVAGE_RANGE as int)
}

/// What validation answers for `action` by `actor`.
pub open spec fn preview_spec(game: GameModel, actor: Side, action: Action) -> Result<Preview, ActionError> {
    if game.active_side != actor {
        Err(ActionError::NotYourTurn)
    } else {
        match action {
            Action::EndTurn => if actor == Side::Dominion && game.turn == u64::MAX {
                Err(ActionError::TurnLimit)
            } else {
                Ok(Preview::EndTurn)
            },
            Action::MoveFleet { fleet_id, destination } => move_spec(game, actor, fleet_id, destination),
            Action::SecurePlanet { planet } => if planet >= PLANET_COUNT {
                Err(ActionError::UnknownPlanet)
            } else if game.planets[planet as int].owner == Some(actor) {
                Err(ActionError::AlreadyYours)
            } else if game.planets[planet as int].securing {
                Err(ActionError::AlreadySecuring)
            } else if !fleet_in_range_spec(game, actor, planet_spec(planet as int).position) {
                Err(ActionError::NoShipInRange)
            } else if enemy_in_range_spec(game, actor, planet_spec(planet as int).position) {
                Err(ActionError::EnemyInRange)
            } else {
                Ok(Preview::Secure { planet })
            },
            Action::BuildShip { kind } => if actor != Side::Player {
                Err(ActionError::NoShipyard)
            } else if game.shipyard is Some {
                Err(ActionError::ShipyardBusy)
            } else if !covers_spec(game.stockpile, kind.cost_spec()) {
                Err(ActionError::CannotAfford)
            } else {
                Ok(Preview::Build { kind, cost: kind.cost_spec() })
            },
            Action::Salvage { poi } => if !has_poi(game.pois, poi) {
                Err(ActionError::UnknownPoi)
            } else if actor != Side::Player {
                Err(ActionError::NoStockpile)
            } else if !salvager_in_range(game, actor, game.pois[poi_index(game.pois, poi)].position) {
                Err(ActionError::NoSalvageShip)
            } else {
                Ok(Preview::Salvage { poi })
            },
        }
    }
}

/// The movement a fleet keeps after spending `cost`; a crumb counts as none.
pub open spec fn movement_left(remaining: int, cost: int) -> i64 {
    if remaining - cost < EPSILON { 0 } else { (remaining - cost) as i64 }
}

/// Fleet `index` flies to `destination` for `cost`; the player's ships chart
/// the corridor they fly through.
pub open spec fn moved_spec(game: GameModel, actor: Side, index: int, destination: Point, cost: int) -> GameModel {
    let fleet = game.fleets[index];
    let steps = path_steps(fleet.position, destination, floor_sqrt(dist_sq(fleet.position, destination) as nat) as int);
    GameModel {
        fleets: game.fleets.update(
            index,
            FleetModel { position: destination, remaining: movement_left(fleet.remaining as int, cost), ..fleet },
        ),
        chart: if actor == Side::Player {
            path_revealed(game.chart, fleet.position, destination, steps, fleet.vision as int, steps + 1)
        } else {
            game.chart
        },
        ..game
    }
}

/// The other side takes over, the round counter moves on after the Dominion,
/// and the side taking over gets its fleets' full movement back.
pub open spec fn hand_off_spec(game: GameModel, actor: Side) -> GameModel {
    let next = match actor {
        Side::Player => Side::Dominion,
        Side::Dominion => Side::Player,
    };
    GameModel {
        active_side: next,
        turn: if actor == Side::Dominion { (game.turn + 1) as u64 } else { game.turn },
        fleets: game.fleets.map_values(
            |f: FleetModel| if f.owner == next { FleetModel { remaining: f.speed, ..f } } else { f },
        ),
        ..game
    }
}

/// What a validated action changes, before the view is marked as changed.
pub open spec fn effect_spec(game: GameModel, actor: Side, action: Action) -> GameModel {
    match action {
        Action::MoveFleet { fleet_id, .. } => match preview_spec(game, actor, action) {
            Ok(Preview::Move { destination, cost }) => moved_spec(
                game,
                actor,
                fleet_lookup(game.fleets, fleet_id).unwrap(),
                destination,
                cost as int,
            ),
            _ => game,
        },
        Action::SecurePlanet { planet } => GameModel {
            planets: game.planets.update(planet as int, PlanetState { securing: true, ..game.planets[planet as int] }),
            ..game
        },
        Action::BuildShip { kind } => GameModel {
            stockpile: difference(game.stockpile, kind.cost_spec()),
            shipyard: Some(Build { kind, turns_left: kind.build_turns_spec() }),
            ..game
        },
        Action::Salvage { poi } => salvage_spec(game, poi).1,
        Action::EndTurn => hand_off_spec(
            if actor == Side::Player { end_player_turn_spec(game) } else { game },
            actor,
        ),
    }
}

/// The game after a validated action: its effect, and whatever moved or
/// changed hands, what is in view changed with it: the chart takes a fresh
/// version from the counter.
pub open spec fn apply_spec(game: GameModel, actor: Side, action: Action) -> GameModel {
    let changed = effect_spec(game, actor, action);
    GameModel { fog_version: changed.versions, versions: next_version_spec(changed.versions), ..changed }
}

proof fn lemma_effect_keeps_versions(game: GameModel, actor: Side, action: Action)
    requires
        game.wf(),
    ensures
        effect_spec(game, actor, action).versions == game.versions,
{
    if action is EndTurn && actor == Side::Player {
        let secured = crate::economy::securing_all(game);
        let collected = crate::economy::collect(secured);
        crate::poi::lemma_respawn_upto(crate::economy::shipyard_step(collected), REGION_COUNT as int);
    }
}

/// Room that `execute` needs for an action that passes validation: the
/// player's end of turn adds income and ids, and a salvage adds its loot.
pub open spec fn room_for(game: GameModel, actor: Side, action: Action) -> bool {
    preview_spec(game, actor, action) is Ok ==> match action {
        Action::EndTurn => actor == Side::Player ==> end_turn_room(game),
        Action::Salvage { poi } => salvage_room(game, poi),
        _ => true,
    }
}

proof fn lemma_mul_floor(n: int, delta: int)
    requires
        n >= 0,
        delta > 0,
    ensures
        (n / delta) * delta <= n,
        n / delta >= 0,
{
    vstd::arithmetic::div_mod::lemma_fundamental_div_mod(n, delta);
    vstd::arithmetic::div_mod::lemma_mod_pos_bound(n, delta);
    vstd::arithmetic::div_mod::lemma_div_pos_is_pos(n, delta);
    assert(delta * (n / delta) == (n / delta) * delta) by (nonlinear_arith);
}

/// A clipped travel lies between zero and the travel it was given.
pub proof fn lemma_clip_axis_range(travel: int, start: int, delta: int, limit: int, distance: int)
    requires
        0 <= start <= limit,
        0 <= travel,
        distance > 0,
    ensures
        0 <= clip_axis(travel, start, delta, limit, distance) <= travel,
{
    if delta > 0 {
        assert((limit - start) * distance >= 0) by (nonlinear_arith)
            requires
                limit - start >= 0,
                distance > 0,
        ;
        lemma_mul_floor((limit - start) * distance, delta);
    } else if delta < 0 {
        assert(start * distance >= 0) by (nonlinear_arith)
            requires
                start >= 0,
                distance > 0,
        ;
        lemma_mul_floor(start * distance, -delta);
    }
}

/// Travel no longer than an axis allows keeps that coordinate within `0..=limit`.
pub proof fn lemma_axis_stays(t: int, travel: int, start: int, delta: int, limit: int, distance: int)
    requires
        0 <= start <= limit,
        0 <= travel,
        distance > 0,
        0 <= t <= clip_axis(travel, start, delta, limit, distance),
    ensures
        0 <= start + along(delta, t, distance) <= limit,
{
    if delta > 0 {
        let n = (limit - start) * distance;
        assert(n >= 0) by (nonlinear_arith)
            requires
                limit - start >= 0,
                distance > 0,
                n == (limit - start) * distance,
        ;
        lemma_mul_floor(n, delta);
        let room = n / delta;
        assert(t * delta <= room * delta) by (nonlinear_arith)
            requires
                t <= room,
                delta > 0,
        ;
        assert(delta * t == t * delta) by (nonlinear_arith);
        assert(0 <= delta * t) by (nonlinear_arith)
            requires
                t >= 0,
                delta > 0,
        ;
        vstd::arithmetic::div_mod::lemma_div_is_ordered(delta * t, n, distance);
        assert(n == distance * (limit - start)) by (nonlinear_arith)
            requires
                n == (limit - start) * distance,
        ;
        vstd::arithmetic::div_mod::lemma_div_multiples_vanish(limit - start, distance);
        vstd::arithmetic::div_mod::lemma_div_pos_is_pos(delta * t, distance);
    } else if delta < 0 {
        let m = -delta;
        let n = start * distance;
        assert(n >= 0) by (nonlinear_arith)
            requires
                start >= 0,
                distance > 0,
                n == start * distance,
        ;
        lemma_mul_floor(n, m);
        let room = n / m;
        assert(t * m <= room * m) by (nonlinear_arith)
            requires
                t <= room,
                m > 0,
        ;
        assert(m * t == t * m) by (nonlinear_arith);
        assert(0 <= m * t) by (nonlinear_arith)
            requires
                t >= 0,
                m > 0,
        ;
        vstd::arithmetic::div_mod::lemma_div_is_ordered(m * t, n, distance);
        assert(n == distance * start) by (nonlinear_arith)
            requires
                n == start * distance,
        ;
        vstd::arithmetic::div_mod::lemma_div_multiples_vanish(start, distance);
        vstd::arithmetic::div_mod::lemma_div_pos_is_pos(m * t, distance);
    } else {
        assert(delta * t == 0);
    }
}

/// `along` rounds toward zero: `d * along(delta, t, d)` falls short of
/// `delta * t` by less than `d`, on the same side of zero.
pub proof fn lemma_along_rounding(delta: int, t: int, d: int)
    requires
        d > 0,
        t >= 0,
    ensures
        ({
            let a = along(delta, t, d);
            let r = if delta >= 0 { delta * t - d * a } else { d * a - delta * t };
            &&& 0 <= r < d
            &&& delta >= 0 ==> a >= 0
            &&& delta < 0 ==> a <= 0
            &&& t <= d ==> (if delta >= 0 { a <= delta } else { delta <= a })
        }),
{
    let m = if delta >= 0 { delta } else { -delta };
    assert(m * t >= 0) by (nonlinear_arith)
        requires
            m >= 0,
            t >= 0,
    ;
    let q = m * t / d;
    vstd::arithmetic::div_mod::lemma_fundamental_div_mod(m * t, d);
    vstd::arithmetic::div_mod::lemma_mod_pos_bound(m * t, d);
    vstd::arithmetic::div_mod::lemma_div_pos_is_pos(m * t, d);
    assert(m * t == d * q + (m * t) % d);
    if t <= d {
        assert(m * t <= m * d) by (nonlinear_arith)
            requires
                t <= d,
                m >= 0,
        ;
        vstd::arithmetic::div_mod::lemma_div_is_ordered(m * t, m * d, d);
        assert(m * d == d * m) by (nonlinear_arith);
        vstd::arithmetic::div_mod::lemma_div_multiples_vanish(m, d);
    }
    if delta >= 0 {
        assert(along(delta, t, d) == q);
    } else {
        assert((-delta) * t == -(delta * t)) by (nonlinear_arith);
        assert(along(delta, t, d) == -q);
        assert(d * (-q) == -(d * q)) by (nonlinear_arith);
    }
}

/// A move keeps its direction: the endpoint lies on the ray toward the
/// target, off it by less than the rounding of one fixed-point step along
/// each axis, and never behind the fleet on either axis.
pub proof fn law_moves_keep_their_direction(from: Point, remaining: int, to: Point)
    requires
        on_map(from),
        0 <= remaining,
        course_spec(from, remaining, to) is Ok,
    ensures
        ({
            let (dx, dy) = (to.x - from.x, to.y - from.y);
            match course_spec(from, remaining, to) {
                Ok(Preview::Move { destination, .. }) => {
                    let (ax, ay) = (destination.x - from.x, destination.y - from.y);
                    let magnitude = (if dx >= 0 { dx } else { -dx }) + (if dy >= 0 { dy } else { -dy });
                    &&& -magnitude < ax * dy - ay * dx < magnitude
                    &&& ax * dx >= 0
                    &&& ay * dy >= 0
                },
                _ => false,
            }
        }),
{
    reveal(course_spec);
    let (dx, dy) = (to.x - from.x, to.y - from.y);
    let d = floor_sqrt(dist_sq(from, to) as nat) as int;
    let t = move_travel(from, to, d, remaining);
    let ax = along(dx, t, d);
    let ay = along(dy, t, d);
    lemma_along_rounding(dx, t, d);
    lemma_along_rounding(dy, t, d);
    let rx = if dx >= 0 { dx * t - d * ax } else { d * ax - dx * t };
    let ry = if dy >= 0 { dy * t - d * ay } else { d * ay - dy * t };
    let mx = if dx >= 0 { dx } else { -dx };
    let my = if dy >= 0 { dy } else { -dy };
    if mx + my == 0 {
        assert(dist_sq(from, to) == 0) by (nonlinear_arith)
            requires
                from.x == to.x,
                from.y == to.y,
        ;
        crate::geometry::lemma_floor_sqrt_is(0, 0);
    }
    let reach = if d < remaining { d } else { remaining };
    let across = clip_axis(reach, from.x as int, dx, WORLD_WIDTH as int, d);
    lemma_clip_axis_range(reach, from.x as int, dx, WORLD_WIDTH as int, d);
    lemma_clip_axis_range(across, from.y as int, dy, WORLD_HEIGHT as int, d);
    // d * (ax * dy - ay * dx) = ±rx * dy ∓ ry * dx, each term smaller than d times a magnitude.
    assert(d * (ax * dy - ay * dx) == (if dx >= 0 { -rx } else { rx }) * dy - (if dy >= 0 { -ry } else { ry })
        * dx) by (nonlinear_arith)
        requires
            rx == (if dx >= 0 { dx * t - d * ax } else { d * ax - dx * t }),
            ry == (if dy >= 0 { dy * t - d * ay } else { d * ay - dy * t }),
    ;
    assert(-(d * (mx + my)) < d * (ax * dy - ay * dx) < d * (mx + my)) by (nonlinear_arith)
        requires
            d * (ax * dy - ay * dx) == (if dx >= 0 { -rx } else { rx }) * dy - (if dy >= 0 { -ry } else { ry }) * dx,
            0 <= rx < d,
            0 <= ry < d,
            mx == (if dx >= 0 { dx } else { -dx }),
            my == (if dy >= 0 { dy } else { -dy }),
            mx + my > 0,
    ;
    assert(-(mx + my) < ax * dy - ay * dx < mx + my) by (nonlinear_arith)
        requires
            -(d * (mx + my)) < d * (ax * dy - ay * dx) < d * (mx + my),
            d > 0,
    ;
    assert(ax * dx >= 0 && ay * dy >= 0) by (nonlinear_arith)
        requires
            dx >= 0 ==> ax >= 0,
            dx < 0 ==> ax <= 0,
            dy >= 0 ==> ay >= 0,
            dy < 0 ==> ay <= 0,
    ;
}

proof fn lemma_no_clip(travel: int, start: int, delta: int, limit: int, distance: int)
    requires
        0 <= start <= limit,
        0 <= start + delta <= limit,
        0 < distance,
        travel == distance,
    ensures
        clip_axis(travel, start, delta, limit, distance) == travel,
{
    if delta > 0 {
        assert(delta * distance <= (limit - start) * distance) by (nonlinear_arith)
            requires
                delta <= limit - start,
                0 < distance,
        ;
        vstd::arithmetic::div_mod::lemma_div_is_ordered(delta * distance, (limit - start) * distance, delta);
        vstd::arithmetic::div_mod::lemma_div_multiples_vanish(distance, delta);
        assert(delta * distance == distance * delta) by (nonlinear_arith);
    } else if delta < 0 {
        assert((-delta) * distance <= start * distance) by (nonlinear_arith)
            requires
                -delta <= start,
                0 < distance,
        ;
        vstd::arithmetic::div_mod::lemma_div_is_ordered((-delta) * distance, start * distance, -delta);
        vstd::arithmetic::div_mod::lemma_div_multiples_vanish(distance, -delta);
        assert((-delta) * distance == distance * (-delta)) by (nonlinear_arith);
    }
}

proof fn lemma_along_whole(delta: int, distance: int)
    requires
        0 < distance,
    ensures
        along(delta, distance, distance) == delta,
{
    if delta >= 0 {
        vstd::arithmetic::div_mod::lemma_div_multiples_vanish(delta, distance);
        assert(delta * distance == distance * delta) by (nonlinear_arith);
    } else {
        vstd::arithmetic::div_mod::lemma_div_multiples_vanish(-delta, distance);
        assert((-delta) * distance == distance * (-delta)) by (nonlinear_arith);
    }
}

/// An order to a point on the map that the fleet can reach with the movement
/// it has left lands exactly there, and costs exactly the distance flown
/// (`distance`, the whole part of the straight-line length).
pub proof fn law_a_reachable_order_lands_on_its_target(from: Point, remaining: int, to: Point, distance: int)
    requires
        on_map(from),
        on_map(to),
        is_floor_sqrt(distance, dist_sq(from, to)),
        EPSILON < distance <= remaining,
    ensures
        course_spec(from, remaining, to) == Ok::<Preview, ActionError>(
            Preview::Move { destination: to, cost: distance as i64 },
        ),
{
    reveal(course_spec);
    crate::geometry::lemma_floor_sqrt_is(distance, dist_sq(from, to));
    let dx = to.x - from.x;
    let dy = to.y - from.y;
    let reach = if distance < remaining { distance } else { remaining };
    assert(reach == distance);
    lemma_no_clip(reach, from.x as int, dx, WORLD_WIDTH as int, distance);
    lemma_no_clip(reach, from.y as int, dy, WORLD_HEIGHT as int, distance);
    assert(move_travel(from, to, distance, remaining) == distance);
    lemma_along_whole(dx, distance);
    lemma_along_whole(dy, distance);
    assert(move_target(from, to, distance, distance) == to);
}

/// The player's End Turn adds the turn's income to the stockpile: the yields
/// of every planet Farlight holds, uncontested, once this turn's securing has
/// resolved. Nothing else touches the stockpile.
pub proof fn law_end_turn_pays_the_income(game: GameModel)
    requires
        game.wf(),
        game.active_side == Side::Player,
        crate::economy::sum_fits(game.stockpile, crate::economy::income_spec(securing_all(game))),
    ensures
        apply_spec(game, Side::Player, Action::EndTurn).stockpile.alloys == game.stockpile.alloys
            + crate::economy::income_spec(securing_all(game)).alloys,
        apply_spec(game, Side::Player, Action::EndTurn).stockpile.electronics == game.stockpile.electronics
            + crate::economy::income_spec(securing_all(game)).electronics,
{
    let mid = shipyard_step(collect(securing_all(game)));
    lemma_respawn_upto(mid, REGION_COUNT as int);
}

/// Securing starts only at a planet not already the actor's and with no effort
/// under way, while one of the actor's ships lies within 200 units of it and
/// no other side's ship does; it marks the effort under way and changes no
/// other planet.
pub proof fn law_securing_needs_a_ship_within_two_hundred_units(game: GameModel, actor: Side, planet: usize, k: int)
    requires
        game.active_side == actor,
        planet < PLANET_COUNT,
        game.planets.len() == PLANET_COUNT,
        0 <= k < PLANET_COUNT,
    ensures
        (preview_spec(game, actor, Action::SecurePlanet { planet }) is Ok) == (game.planets[planet as int].owner
            != Some(actor) && !game.planets[planet as int].securing && (exists|f: int|
            0 <= f < game.fleets.len() && game.fleets[f].owner == actor && dist_sq(
                #[trigger] game.fleets[f].position,
                planet_spec(planet as int).position,
            ) <= 200_000_000_000 * 200_000_000_000) && !(exists|f: int|
            0 <= f < game.fleets.len() && game.fleets[f].owner != actor && dist_sq(
                #[trigger] game.fleets[f].position,
                planet_spec(planet as int).position,
            ) <= 200_000_000_000 * 200_000_000_000)),
        preview_spec(game, actor, Action::SecurePlanet { planet }) is Ok ==> ({
            let after = apply_spec(game, actor, Action::SecurePlanet { planet });
            &&& after.planets[planet as int] == (PlanetState { securing: true, ..game.planets[planet as int] })
            &&& k != planet ==> after.planets[k] == game.planets[k]
        }),
{
}

/// Salvaging works only on a point that exists, on the player's turn, with one
/// of the player's ships within 100 units of it; it adds the wreck's loot to
/// the stockpile and takes the point off the map.
pub proof fn law_salvage_needs_a_ship_within_a_hundred_units(game: GameModel, poi: u32)
    requires
        game.active_side == Side::Player,
    ensures
        (preview_spec(game, Side::Player, Action::Salvage { poi }) is Ok) == (has_poi(game.pois, poi) && exists|f: int|
            0 <= f < game.fleets.len() && game.fleets[f].owner == Side::Player && dist_sq(
                #[trigger] game.fleets[f].position,
                game.pois[poi_index(game.pois, poi)].position,
            ) <= 100_000_000_000 * 100_000_000_000),
        preview_spec(game, Side::Player, Action::Salvage { poi }) is Ok && crate::economy::sum_fits(
            game.stockpile,
            crate::poi::roll_spec(game.pois[poi_index(game.pois, poi)].kind, game.rng).0,
        ) ==> ({
            let after = apply_spec(game, Side::Player, Action::Salvage { poi });
            let loot = crate::poi::roll_spec(game.pois[poi_index(game.pois, poi)].kind, game.rng).0;
            &&& after.stockpile.alloys == game.stockpile.alloys + loot.alloys
            &&& after.stockpile.electronics == game.stockpile.electronics + loot.electronics
            &&& after.pois.len() == game.pois.len() - 1
        }),
{
    if has_poi(game.pois, poi) {
        crate::poi::lemma_first_poi(game.pois, poi);
    }
}

/// Ordering a Scout at an idle shipyard takes 10 Alloys and 5 Advanced
/// Electronics from the stockpile and starts a two-turn build; with less than
/// that in stock the order is refused and costs nothing.
pub proof fn law_a_scout_costs_ten_alloys_and_five_electronics(game: GameModel)
    requires
        game.active_side == Side::Player,
        game.shipyard is None,
    ensures
        ({
            let action = Action::BuildShip { kind: ShipKind::Scout };
            &&& (preview_spec(game, Side::Player, action) is Ok) == (game.stockpile.alloys >= 10
                && game.stockpile.electronics >= 5)
            &&& !(preview_spec(game, Side::Player, action) is Ok) ==> preview_spec(game, Side::Player, action)
                == Err::<Preview, ActionError>(ActionError::CannotAfford)
            &&& preview_spec(game, Side::Player, action) is Ok ==> {
                let after = apply_spec(game, Side::Player, action);
                &&& after.stockpile.alloys == game.stockpile.alloys - 10
                &&& after.stockpile.electronics == game.stockpile.electronics - 5
                &&& after.shipyard == Some(Build { kind: ShipKind::Scout, turns_left: 2 })
                &&& after.fleets == game.fleets
            }
        }),
{
}

/// A committed move puts the fleet at the previewed destination and takes the
/// previewed cost from its movement (a crumb under `EPSILON` counts as none);
/// every other fleet, the planets, the stockpile and the turn stay as they were.
pub proof fn law_a_move_spends_what_it_previewed(game: GameModel, actor: Side, fleet_id: u32, to: Point, j: int)
    requires
        game.wf(),
        0 <= j < game.fleets.len(),
        preview_spec(game, actor, Action::MoveFleet { fleet_id, destination: to }) is Ok,
    ensures
        ({
            let after = apply_spec(game, actor, Action::MoveFleet { fleet_id, destination: to });
            let i = fleet_lookup(game.fleets, fleet_id).unwrap();
            match preview_spec(game, actor, Action::MoveFleet { fleet_id, destination: to }) {
                Ok(Preview::Move { destination, cost }) => {
                    &&& after.fleets.len() == game.fleets.len()
                    &&& j == i ==> after.fleets[j].position == destination && after.fleets[j].remaining == (if game.fleets[j].remaining
                        - cost < EPSILON {
                        0
                    } else {
                        game.fleets[j].remaining - cost
                    }) && after.fleets[j].id == game.fleets[j].id && after.fleets[j].owner == game.fleets[j].owner
                        && after.fleets[j].speed == game.fleets[j].speed && after.fleets[j].vision == game.fleets[j].vision
                    &&& j != i ==> after.fleets[j] == game.fleets[j]
                    &&& after.planets == game.planets && after.stockpile == game.stockpile && after.turn == game.turn
                        && after.active_side == game.active_side && after.pois == game.pois
                },
                _ => false,
            }
        }),
{
    lemma_find_fleet_from(game.fleets, fleet_id, 0);
    law_move_stays_on_map_within_budget(game, actor, fleet_id, to);
    let i = fleet_lookup(game.fleets, fleet_id).unwrap();
    assert(fleet_wf(game.fleets[i]));
}

/// A previewed move ends on the map and costs more than nothing and no more
/// than the fleet has left.
pub proof fn law_move_stays_on_map_within_budget(game: GameModel, actor: Side, fleet_id: u32, to: Point)
    requires
        game.wf(),
        move_spec(game, actor, fleet_id, to) is Ok,
    ensures
        ({
            let fleet = game.fleets[fleet_lookup(game.fleets, fleet_id).unwrap()];
            match move_spec(game, actor, fleet_id, to) {
                Ok(Preview::Move { destination, cost }) => on_map(destination) && EPSILON < cost <= fleet.remaining,
                _ => false,
            }
        }),
{
    lemma_find_fleet_from(game.fleets, fleet_id, 0);
    let i = fleet_lookup(game.fleets, fleet_id).unwrap();
    let fleet = game.fleets[i];
    assert(fleet_wf(fleet));
    let d = floor_sqrt(dist_sq(fleet.position, to) as nat) as int;
    let reach = if d < fleet.remaining { d } else { fleet.remaining as int };
    let across = clip_axis(reach, fleet.position.x as int, to.x - fleet.position.x, WORLD_WIDTH as int, d);
    lemma_clip_axis_range(reach, fleet.position.x as int, to.x - fleet.position.x, WORLD_WIDTH as int, d);
    let travel = clip_axis(across, fleet.position.y as int, to.y - fleet.position.y, WORLD_HEIGHT as int, d);
    lemma_clip_axis_range(across, fleet.position.y as int, to.y - fleet.position.y, WORLD_HEIGHT as int, d);
    lemma_axis_stays(travel, reach, fleet.position.x as int, to.x - fleet.position.x, WORLD_WIDTH as int, d);
    lemma_axis_stays(travel, across, fleet.position.y as int, to.y - fleet.position.y, WORLD_HEIGHT as int, d);
}

/// The player's end of turn leaves the chart, the turn counter and whose turn
/// it is alone, and keeps one point of interest per sector.
pub proof fn lemma_end_player_turn_frame(game: GameModel)
    requires
        game.wf(),
    ensures
        end_player_turn_spec(game).chart == game.chart,
        end_player_turn_spec(game).turn == game.turn,
        end_player_turn_spec(game).active_side == game.active_side,
        end_player_turn_spec(game).planets == crate::economy::securing_all(game).planets,
        one_per_sector(game.pois) ==> one_per_sector(end_player_turn_spec(game).pois),
{
    let mid = shipyard_step(collect(securing_all(game)));
    assert(mid.chart == game.chart && mid.respawn == game.respawn && mid.pois == game.pois && mid.turn == game.turn
        && mid.active_side == game.active_side);
    lemma_respawn_upto(mid, REGION_COUNT as int);
}

/// Explored cells stay known: no action un-charts a cell.
pub proof fn law_charted_cells_stay_charted(game: GameModel, actor: Side, action: Action, i: int)
    requires
        game.wf(),
        preview_spec(game, actor, action) is Ok,
        0 <= i < game.chart.len(),
        game.chart[i],
    ensures
        apply_spec(game, actor, action).chart[i],
{
    match action {
        Action::EndTurn => {
            if actor == Side::Player {
                lemma_end_player_turn_frame(game);
            }
        },
        _ => {},
    }
}

/// Whatever an action does, what is in view is marked as changed: the chart
/// takes the counter's next version, which differs from the one it showed, and
/// the counter moves on. While the counter runs ahead of the chart and does not
/// wrap, the new version is later than the old one and earlier than every one
/// still to come.
pub proof fn law_every_action_marks_the_view_changed(game: GameModel, actor: Side, action: Action)
    requires
        game.wf(),
        preview_spec(game, actor, action) is Ok,
    ensures
        apply_spec(game, actor, action).fog_version == game.versions,
        apply_spec(game, actor, action).fog_version != game.fog_version,
        apply_spec(game, actor, action).versions == next_version_spec(game.versions),
        game.fog_version < game.versions < u64::MAX ==> game.fog_version < apply_spec(game, actor, action).fog_version
            < apply_spec(game, actor, action).versions,
        apply_spec(game, actor, action).chart == effect_spec(game, actor, action).chart,
{
    lemma_effect_keeps_versions(game, actor, action);
}

/// Ending a turn hands control to the other side and refreshes that side's
/// fleets to their full speed: unspent movement does not accumulate. The
/// counter moves on only after the Dominion.
pub proof fn law_end_turn_refills_without_banking(game: GameModel, actor: Side)
    requires
        game.wf(),
        preview_spec(game, actor, Action::EndTurn) is Ok,
    ensures
        ({
            let next = apply_spec(game, actor, Action::EndTurn);
            &&& next.active_side != actor
            &&& forall|i: int| 0 <= i < next.fleets.len() && (#[trigger] next.fleets[i]).owner == next.active_side
                ==> next.fleets[i].remaining == next.fleets[i].speed
            &&& next.turn == if actor == Side::Dominion { game.turn + 1 } else { game.turn as int }
        }),
{
    if actor == Side::Player {
        lemma_end_player_turn_frame(game);
    }
}

/// No action puts two points of interest in one sector.
#[verifier::spinoff_prover]
#[verifier::rlimit(30)]
pub proof fn law_actions_keep_one_point_per_sector(game: GameModel, actor: Side, action: Action)
    requires
        game.wf(),
        one_per_sector(game.pois),
        preview_spec(game, actor, action) is Ok,
    ensures
        one_per_sector(apply_spec(game, actor, action).pois),
{
    let after = apply_spec(game, actor, action).pois;
    match action {
        Action::EndTurn => {
            if actor == Side::Player {
                lemma_end_player_turn_frame(game);
            }
            assert(after == hand_off_spec(
                if actor == Side::Player { end_player_turn_spec(game) } else { game },
                actor,
            ).pois);
        },
        Action::Salvage { poi } => {
            law_salvage_keeps_one_point_per_sector(game, poi);
        },
        Action::MoveFleet { fleet_id, destination } => {
            assert(after == game.pois) by {
                match preview_spec(game, actor, action) {
                    Ok(Preview::Move { destination, cost }) => {
                        assert(effect_spec(game, actor, action).pois == game.pois);
                    },
                    _ => {},
                }
            }
        },
        Action::SecurePlanet { planet } => {
            assert(after == game.pois);
        },
        Action::BuildShip { kind } => {
            assert(after == game.pois);
        },
    }
}

/// Securing influence stays in range whatever action passes validation: an
/// effort under way stays below the planet's count of turns, and a planet with
/// no effort holds no influence.
pub proof fn law_securing_keeps_influence_in_range(game: GameModel, actor: Side, action: Action, i: int)
    requires
        game.wf(),
        preview_spec(game, actor, action) is Ok,
        0 <= i < PLANET_COUNT,
    ensures
        crate::world::planet_state_wf(apply_spec(game, actor, action).planets[i], i),
{
    let after = apply_spec(game, actor, action).planets;
    match action {
        Action::EndTurn => {
            if actor == Side::Player {
                lemma_end_player_turn_frame(game);
                crate::economy::lemma_securing_step_wf(
                    game.planets[i],
                    crate::economy::held_spec(game, i),
                    i,
                );
            }
        },
        Action::Salvage { poi } => {
            assert(after == game.planets);
        },
        Action::MoveFleet { fleet_id, destination } => {
            assert(after == game.planets) by {
                match preview_spec(game, actor, action) {
                    Ok(Preview::Move { destination, cost }) => {
                        assert(effect_spec(game, actor, action).planets == game.planets);
                    },
                    _ => {},
                }
            }
        },
        Action::SecurePlanet { planet } => {
            crate::planets::lemma_planet_table(i);
        },
        Action::BuildShip { kind } => {
            assert(after == game.planets);
        },
    }
}

proof fn lemma_course_never_lacks_movement(from: Point, remaining: int, destination: Point)
    ensures
        course_spec(from, remaining, destination) != Err::<Preview, ActionError>(ActionError::NoMovement),
{
}

proof fn lemma_move_lacks_movement(game: GameModel, actor: Side, fleet_id: u32, destination: Point)
    ensures
        (move_spec(game, actor, fleet_id, destination) == Err::<Preview, ActionError>(ActionError::NoMovement))
            == (fleet_lookup(game.fleets, fleet_id) matches Some(k) && game.fleets[k].owner == actor
            && game.fleets[k].remaining <= EPSILON),
{
    match fleet_lookup(game.fleets, fleet_id) {
        Some(k) => {
            let fleet = game.fleets[k];
            lemma_course_never_lacks_movement(fleet.position, fleet.remaining as int, destination);
        },
        None => {},
    }
}

/// The first fleet with `fleet_id` is the actor's and has no more than
/// `EPSILON` of movement left.
pub open spec fn spent_fleet(fleets: Seq<FleetModel>, actor: Side, fleet_id: u32) -> bool {
    exists|i: int|
        0 <= i < fleets.len() && fleets[i].id == fleet_id && (forall|j: int| 0 <= j < i ==> fleets[j].id != fleet_id)
            && fleets[i].owner == actor && fleets[i].remaining <= EPSILON
}

/// A move order is refused for want of movement exactly when the actor's own
/// fleet with that id has no more than `EPSILON` left: any movement above that
/// can be spent, however little of the fleet's speed it is, so movement can be
/// split across orders.
pub proof fn law_no_movement_only_when_spent(game: GameModel, actor: Side, fleet_id: u32, destination: Point)
    requires
        game.active_side == actor,
    ensures
        (preview_spec(game, actor, Action::MoveFleet { fleet_id, destination }) == Err::<Preview, ActionError>(
            ActionError::NoMovement,
        )) == spent_fleet(game.fleets, actor, fleet_id),
{
    lemma_move_lacks_movement(game, actor, fleet_id, destination);
    assert(preview_spec(game, actor, Action::MoveFleet { fleet_id, destination }) == move_spec(
        game,
        actor,
        fleet_id,
        destination,
    ));
    lemma_find_fleet_from(game.fleets, fleet_id, 0);
    match fleet_lookup(game.fleets, fleet_id) {
        Some(k) => {
            if spent_fleet(game.fleets, actor, fleet_id) {
                let i = choose|i: int|
                    0 <= i < game.fleets.len() && game.fleets[i].id == fleet_id && (forall|j: int|
                        0 <= j < i ==> game.fleets[j].id != fleet_id) && game.fleets[i].owner == actor
                        && game.fleets[i].remaining <= EPSILON;
                if i < k {
                    assert(game.fleets[i].id != fleet_id);
                } else if i > k {
                    assert(game.fleets[k].id != fleet_id);
                }
            } else {
                if game.fleets[k].owner == actor && game.fleets[k].remaining <= EPSILON {
                    assert(spent_fleet(game.fleets, actor, fleet_id));
                }
            }
        },
        None => {},
    }
}

/// Every fleet's movement lies between nothing and its full speed.
pub open spec fn budgets_within_speed(game: GameModel) -> bool {
    forall|i: int| 0 <= i < game.fleets.len() ==> 0 <= #[trigger] game.fleets[i].remaining <= game.fleets[i].speed
}

/// Movement never builds up past a fleet's speed: no action leaves a fleet
/// with more than its speed to spend.
pub proof fn law_movement_never_exceeds_speed(game: GameModel, actor: Side, action: Action)
    requires
        game.wf(),
        budgets_within_speed(game),
        preview_spec(game, actor, action) is Ok,
    ensures
        budgets_within_speed(apply_spec(game, actor, action)),
{
    let after = apply_spec(game, actor, action);
    match action {
        Action::MoveFleet { fleet_id, destination } => {
            lemma_find_fleet_from(game.fleets, fleet_id, 0);
            match preview_spec(game, actor, action) {
                Ok(Preview::Move { destination: to, cost }) => {
                    law_move_stays_on_map_within_budget(game, actor, fleet_id, destination);
                    let index = fleet_lookup(game.fleets, fleet_id).unwrap();
                    assert forall|i: int| 0 <= i < after.fleets.len() implies 0 <= #[trigger] after.fleets[i].remaining
                        <= after.fleets[i].speed by {
                        if i != index {
                            assert(after.fleets[i] == game.fleets[i]);
                        }
                    }
                },
                _ => {},
            }
        },
        Action::EndTurn => {
            let before = if actor == Side::Player {
                let mid = shipyard_step(collect(securing_all(game)));
                lemma_respawn_upto(mid, REGION_COUNT as int);
                assert(end_player_turn_spec(game).fleets == mid.fleets);
                assert forall|i: int| 0 <= i < mid.fleets.len() implies 0 <= #[trigger] mid.fleets[i].remaining
                    <= mid.fleets[i].speed by {
                    if i < game.fleets.len() {
                        assert(mid.fleets[i] == game.fleets[i]);
                    }
                }
                end_player_turn_spec(game)
            } else {
                game
            };
            assert(after.fleets == hand_off_spec(before, actor).fleets);
        },
        Action::Salvage { poi } => {
            assert(after.fleets == game.fleets);
        },
        _ => {},
    }
}

impl Game {
    /// The index of the first fleet with `id`, if any.
    fn find_fleet(&self, id: u32) -> (found: Option<usize>)
        ensures
            found == match fleet_lookup(self@.fleets, id) {
                Some(i) => Some(i as usize),
                None => None::<usize>,
            },
            found matches Some(i) ==> i < self@.fleets.len() && self@.fleets[i as int].id == id,
    {
        let mut i: usize = 0;
        while i < self.fleets.len()
            invariant
                i <= self.fleets@.len(),
                fleet_lookup(self@.fleets, id) == find_fleet_from(self@.fleets, id, i as int),
            decreases self.fleets@.len() - i,
        {
            if self.fleets[i].id == id {
                return Some(i);
            }
            i += 1;
        }
        None
    }

    /// Some ship of `side` is within salvage range of `position`.
    fn salvager_in_range(&self, side: Side, position: Point) -> (found: bool)
        requires
            self@.wf(),
            bounded(position),
        ensures
            found == salvager_in_range(self@, side, position),
    {
        let mut i: usize = 0;
        while i < self.fleets.len()
            invariant
                self@.wf(),
                bounded(position),
                i <= self.fleets@.len(),
                forall|j: int| 0 <= j < i ==> !(self@.fleets[j].owner == side && within_spec(
                    #[trigger] self@.fleets[j].position, position, SALVAGE_RANGE as int)),
            decreases self.fleets@.len() - i,
        {
            assert(fleet_wf(self@.fleets[i as int]));
            if self.fleets[i].owner == side && within(self.fleets[i].position, position, SALVAGE_RANGE) {
                assert(self@.fleets[i as int].position == self.fleets[i as int].position);
                return true;
            }
            i += 1;
        }
        false
    }
}

/// `travel` cut short where the ray leaves `0..=limit` on one axis.
fn clip_travel(travel: i128, start: i128, delta: i128, limit: i128, distance: i128) -> (clipped: i128)
    requires
        0 <= start <= limit <= WORLD_WIDTH,
        0 <= travel,
        0 < distance <= 0x4000_0000_0000_0000,
        -0x2000_0000_0000_0000 <= delta <= 0x2000_0000_0000_0000,
    ensures
        clipped == clip_axis(travel as int, start as int, delta as int, limit as int, distance as int),
        0 <= clipped <= travel,
{
    proof {
        lemma_clip_axis_range(travel as int, start as int, delta as int, limit as int, distance as int);
    }
    if delta > 0 {
        assert(0 <= (limit - start) * distance <= WORLD_WIDTH * 0x4000_0000_0000_0000) by (nonlinear_arith)
            requires
                0 <= limit - start <= WORLD_WIDTH,
                0 < distance <= 0x4000_0000_0000_0000,
        ;
        let room = (limit - start) * distance / delta;
        if room < travel {
            room
        } else {
            travel
        }
    } else if delta < 0 {
        assert(0 <= start * distance <= WORLD_WIDTH * 0x4000_0000_0000_0000) by (nonlinear_arith)
            requires
                0 <= start <= WORLD_WIDTH,
                0 < distance <= 0x4000_0000_0000_0000,
        ;
        let room = start * distance / (-delta);
        if room < travel {
            room
        } else {
            travel
        }
    } else {
        travel
    }
}

/// The endpoint and cost of an order from `from` toward `destination`.
fn course(from: Point, remaining: i64, destination: Point) -> (result: Result<Preview, ActionError>)
    requires
        on_map(from),
        EPSILON < remaining <= COORD_LIMIT,
    ensures
        result == course_spec(from, remaining as int, destination),
{
    reveal(course_spec);
    if !(-COORD_LIMIT <= destination.x && destination.x <= COORD_LIMIT && -COORD_LIMIT <= destination.y
        && destination.y <= COORD_LIMIT) {
        return Err(ActionError::InvalidDestination);
    }
    let length = distance(from, destination) as i128;
    if length <= EPSILON as i128 {
        return Err(ActionError::AlreadyThere);
    }
    let dx = destination.x as i128 - from.x as i128;
    let dy = destination.y as i128 - from.y as i128;
    let reach: i128 = if length < remaining as i128 {
        length
    } else {
        remaining as i128
    };
    let across = clip_travel(reach, from.x as i128, dx, WORLD_WIDTH as i128, length);
    let travel = clip_travel(across, from.y as i128, dy, WORLD_HEIGHT as i128, length);
    if travel <= EPSILON as i128 {
        return Err(ActionError::AlreadyThere);
    }
    let x = from.x as i128 + part_along(dx, travel, length);
    let y = from.y as i128 + part_along(dy, travel, length);
    Ok(Preview::Move { destination: Point { x: x as i64, y: y as i64 }, cost: travel as i64 })
}

fn preview_move(game: &Game, actor: Side, fleet_id: u32, destination: Point) -> (result: Result<Preview, ActionError>)
    requires
        game@.wf(),
    ensures
        result == move_spec(game@, actor, fleet_id, destination),
{
    proof {
        lemma_find_fleet_from(game@.fleets, fleet_id, 0);
    }
    let index = match game.find_fleet(fleet_id) {
        Some(index) => index,
        None => return Err(ActionError::UnknownFleet),
    };
    let fleet = &game.fleets[index];
    assert(fleet_wf(game@.fleets[index as int]));
    if fleet.owner != actor {
        return Err(ActionError::NotYourFleet);
    }
    if fleet.remaining <= EPSILON {
        return Err(ActionError::NoMovement);
    }
    course(fleet.position, fleet.remaining, destination)
}

/// Validation is read-only. Both the preview and execution use this exact result.
pub fn preview(game: &Game, actor: Side, action: Action) -> (result: Result<Preview, ActionError>)
    requires
        game@.wf(),
    ensures
        result == preview_spec(game@, actor, action),
{
    if game.active_side != actor {
        return Err(ActionError::NotYourTurn);
    }
    match action {
        Action::EndTurn => {
            if actor == Side::Dominion && game.turn == u64::MAX {
                return Err(ActionError::TurnLimit);
            }
            Ok(Preview::EndTurn)
        },
        Action::MoveFleet { fleet_id, destination } => preview_move(game, actor, fleet_id, destination),
        Action::SecurePlanet { planet } => {
            if planet >= PLANET_COUNT {
                return Err(ActionError::UnknownPlanet);
            }
            let table = planets();
            let target = table[planet].position;
            proof {
                crate::planets::lemma_planet_table(planet as int);
            }
            let state = game.planets[planet];
            if state.owner == Some(actor) {
                return Err(ActionError::AlreadyYours);
            }
            if state.securing {
                return Err(ActionError::AlreadySecuring);
            }
            if !game.fleet_in_range(actor, target) {
                return Err(ActionError::NoShipInRange);
            }
            if game.enemy_in_range(actor, target) {
                return Err(ActionError::EnemyInRange);
            }
            Ok(Preview::Secure { planet })
        },
        Action::BuildShip { kind } => {
            if actor != Side::Player {
                return Err(ActionError::NoShipyard);
            }
            if game.shipyard.is_some() {
                return Err(ActionError::ShipyardBusy);
            }
            let cost = kind.cost();
            if !game.stockpile.covers(cost) {
                return Err(ActionError::CannotAfford);
            }
            Ok(Preview::Build { kind, cost })
        },
        Action::Salvage { poi } => {
            let found = game.poi(poi);
            match found {
                None => Err(ActionError::UnknownPoi),
                Some(point) => {
                    if actor != Side::Player {
                        return Err(ActionError::NoStockpile);
                    }
                    proof {
                        crate::poi::lemma_first_poi(game@.pois, poi);
                    }
                    assert(crate::world::poi_wf(game@.pois[poi_index(game@.pois, poi)]));
                    if !game.salvager_in_range(actor, point.position) {
                        return Err(ActionError::NoSalvageShip);
                    }
                    Ok(Preview::Salvage { poi })
                },
            }
        },
    }
}

/// The game after fleet `index` flies to `destination` for `cost`.
fn move_fleet(game: &mut Game, actor: Side, index: usize, destination: Point, cost: i64)
    requires
        old(game)@.wf(),
        index < old(game)@.fleets.len(),
        on_map(destination),
        0 <= cost <= old(game)@.fleets[index as int].remaining,
    ensures
        final(game)@ == moved_spec(old(game)@, actor, index as int, destination, cost as int),
        final(game)@.wf(),
{
    assert(fleet_wf(game@.fleets[index as int]));
    let from = game.fleets[index].position;
    let vision = game.fleets[index].vision;
    let remaining = game.fleets[index].remaining;
    let left = if remaining - cost < EPSILON {
        0
    } else {
        remaining - cost
    };
    let ghost before = game@;
    game.fleets[index].position = destination;
    game.fleets[index].remaining = left;
    if actor == Side::Player {
        game.fog.reveal_path(from, destination, vision);
    }
    assert(game@.fleets =~= moved_spec(before, actor, index as int, destination, cost as int).fleets);
    assert forall|i: int| 0 <= i < game@.fleets.len() implies fleet_wf(#[trigger] game@.fleets[i]) by {
        if i != index {
            assert(game@.fleets[i] == before.fleets[i]);
        }
    }
}

/// The other side takes over and gets its fleets' full movement back.
fn hand_off(game: &mut Game, actor: Side)
    requires
        old(game)@.wf(),
        actor == Side::Dominion ==> old(game)@.turn < u64::MAX,
    ensures
        final(game)@ == hand_off_spec(old(game)@, actor),
        final(game)@.wf(),
{
    let ghost before = game@;
    let next = match actor {
        Side::Player => Side::Dominion,
        Side::Dominion => Side::Player,
    };
    if actor == Side::Dominion {
        game.turn = game.turn + 1;
    }
    game.active_side = next;
    let ghost turned = game@;
    let mut i: usize = 0;
    while i < game.fleets.len()
        invariant
            before.wf(),
            turned == (GameModel { active_side: next, turn: turned.turn, ..before }),
            game@ == (GameModel { fleets: game@.fleets, ..turned }),
            game@.fleets.len() == before.fleets.len(),
            i <= game@.fleets.len(),
            forall|j: int| 0 <= j < i ==> #[trigger] game@.fleets[j] == (if before.fleets[j].owner == next {
                FleetModel { remaining: before.fleets[j].speed, ..before.fleets[j] }
            } else {
                before.fleets[j]
            }),
            forall|j: int| i <= j < game@.fleets.len() ==> #[trigger] game@.fleets[j] == before.fleets[j],
        decreases game@.fleets.len() - i,
    {
        let ghost prev = game.fleets@;
        let ghost prev_model = game@.fleets;
        assert(game@.fleets[i as int] == before.fleets[i as int]);
        assert(game@.fleets[i as int] == prev[i as int]@);
        if game.fleets[i].owner == next {
            let speed = game.fleets[i].speed;
            game.fleets[i].remaining = speed;
        }
        assert(forall|j: int| 0 <= j < prev.len() && j != i ==> game.fleets@[j] == prev[j]);
        assert(forall|j: int| 0 <= j < prev.len() && j != i ==> #[trigger] game@.fleets[j] == prev_model[j]);
        assert(game@.fleets[i as int] == (if before.fleets[i as int].owner == next {
            FleetModel { remaining: before.fleets[i as int].speed, ..before.fleets[i as int] }
        } else {
            before.fleets[i as int]
        }));
        i += 1;
    }
    assert(game@.fleets =~= hand_off_spec(before, actor).fleets);
    assert forall|j: int| 0 <= j < game@.fleets.len() implies fleet_wf(#[trigger] game@.fleets[j]) by {
        assert(fleet_wf(before.fleets[j]));
    }
}

/// Whether the game has room for what `action` would add, should it pass
/// validation.
pub fn has_room(game: &Game, actor: Side, action: Action) -> (room: bool)
    requires
        game@.wf(),
    ensures
        room == room_for(game@, actor, action),
{
    if preview(game, actor, action).is_err() {
        return true;
    }
    match action {
        Action::EndTurn => actor != Side::Player || game.end_turn_room(),
        Action::Salvage { poi } => game.salvage_room(poi),
        _ => true,
    }
}

/// Commit atomically after validation. Orders have no cancellation or undo
/// path; an order that fails validation changes nothing.
pub fn execute(game: &mut Game, actor: Side, action: Action) -> (result: Result<Preview, ActionError>)
    requires
        old(game)@.wf(),
        room_for(old(game)@, actor, action),
    ensures
        result == preview_spec(old(game)@, actor, action),
        result is Err ==> final(game)@ == old(game)@,
        result is Ok ==> final(game)@ == apply_spec(old(game)@, actor, action),
        final(game)@.wf(),
{
    let result = preview(game, actor, action);
    let outcome = match result {
        Err(error) => return Err(error),
        Ok(outcome) => outcome,
    };
    match action {
        Action::MoveFleet { fleet_id, destination: _ } => {
            proof {
                lemma_find_fleet_from(game@.fleets, fleet_id, 0);
                law_move_stays_on_map_within_budget(game@, actor, fleet_id, action->destination);
            }
            let index = match game.find_fleet(fleet_id) {
                Some(index) => index,
                None => return result,
            };
            match outcome {
                Preview::Move { destination, cost } => move_fleet(game, actor, index, destination, cost),
                _ => {},
            }
        },
        Action::SecurePlanet { planet } => {
            let mut state = game.planets[planet];
            state.securing = true;
            game.planets.set(planet, state);
            proof {
                crate::planets::lemma_planet_table(planet as int);
                assert forall|i: int| 0 <= i < PLANET_COUNT implies crate::world::planet_state_wf(
                    #[trigger] game@.planets[i], i) by {
                    if i != planet {
                        assert(game@.planets[i] == old(game)@.planets[i]);
                    }
                }
            }
        },
        Action::BuildShip { kind } => {
            game.stockpile = game.stockpile.minus(kind.cost());
            game.shipyard = Some(Build { kind, turns_left: kind.build_turns() });
        },
        Action::Salvage { poi } => {
            game.salvage(poi);
        },
        Action::EndTurn => {
            if actor == Side::Player {
                game.end_player_turn();
            }
            hand_off(game, actor);
        },
    }
    let version = next_version(&mut game.versions);
    game.fog.touch(version);
    result
}

} // verus!
