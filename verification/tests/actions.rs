use starfall_dominion::actions::{execute, has_room, preview, Action, ActionError, Preview};
use starfall_dominion::economy::{Resources, ShipKind, SECURE_RANGE};
use starfall_dominion::geometry::{Point, SCALE, WORLD_WIDTH};
use starfall_dominion::planets::planets;
use starfall_dominion::world::{Fleet, Game, Side, SCOUT_SPEED, SCOUT_VISION};

/// One hundred-millionth of a world unit, in fixed-point steps.
const TOLERANCE: f64 = 1e-8;

fn order(destination: Point) -> Action {
    Action::MoveFleet { fleet_id: 0, destination }
}

fn plus(a: Point, b: Point) -> Point {
    Point::new(a.x + b.x, a.y + b.y)
}

fn minus(a: Point, b: Point) -> Point {
    Point::new(a.x - b.x, a.y - b.y)
}

/// A length in world units.
fn length(p: Point) -> f64 {
    (p.x as f64).hypot(p.y as f64) / SCALE as f64
}

/// A world position from floating-point units, as the interface converts
/// one; anything that is not a finite number lands far off every map.
fn world(x: f64, y: f64) -> Point {
    let convert = |v: f64| {
        if v.is_finite() && v.abs() < 1e9 {
            (v * SCALE as f64).round() as i64
        } else {
            i64::MAX
        }
    };
    Point::new(convert(x), convert(y))
}

fn planet(name: &str) -> usize {
    planets().iter().position(|planet| planet.name == name).expect("a named planet")
}

/// A full round: the player ends the turn and the Dominion passes.
fn round(game: &mut Game) {
    execute(game, Side::Player, Action::EndTurn).unwrap();
    execute(game, Side::Dominion, Action::EndTurn).unwrap();
}

#[test]
fn multiple_orders_share_a_budget_and_preview_matches_execution() {
    let mut game = Game::default();
    let start = game.fleets[0].position;
    execute(&mut game, Side::Player, order(plus(start, Point::units(30, 0)))).unwrap();
    assert_eq!(game.fleets[0].remaining, SCOUT_SPEED - 30 * SCALE);
    // Far beyond range along a 3-4-5 direction: the fleet spends everything it has left.
    let next = order(plus(game.fleets[0].position, Point::units(3000, 4000)));
    let expected = preview(&game, Side::Player, next).unwrap();
    assert_eq!(execute(&mut game, Side::Player, next).unwrap(), expected);
    assert_eq!(game.fleets[0].remaining, 0);
    let left = SCOUT_SPEED - 30 * SCALE;
    let reached = plus(start, Point::new(30 * SCALE + left * 3 / 5, left * 4 / 5));
    assert!(length(minus(game.fleets[0].position, reached)) < TOLERANCE);
    assert_eq!(execute(&mut game, Side::Player, next), Err(ActionError::NoMovement));
}

#[test]
fn edge_clipping_preserves_direction_and_only_charges_actual_distance() {
    let mut game = Game::default();
    game.fleets[0].position = Point::new(WORLD_WIDTH - 10 * SCALE, 500 * SCALE);
    execute(&mut game, Side::Player, order(Point::new(WORLD_WIDTH + 90 * SCALE, 600 * SCALE))).unwrap();
    assert!(length(minus(game.fleets[0].position, Point::new(WORLD_WIDTH, 510 * SCALE))) < TOLERANCE);
    let spent = 10.0_f64.hypot(10.0);
    let remaining = game.fleets[0].remaining as f64 / SCALE as f64;
    assert!((remaining - (SCOUT_SPEED as f64 / SCALE as f64 - spent)).abs() < TOLERANCE);
    let before = game.clone();
    assert_eq!(
        execute(&mut game, Side::Player, order(Point::new(WORLD_WIDTH + 100 * SCALE, 510 * SCALE))),
        Err(ActionError::AlreadyThere)
    );
    assert_eq!(game, before);
}

#[test]
fn illegal_actions_do_not_mutate_the_game() {
    let mut game = Game::default();
    let before = game.clone();
    for destination in [world(f64::NAN, 1.0), world(1.0, f64::INFINITY)] {
        assert_eq!(
            execute(&mut game, Side::Player, order(destination)),
            Err(ActionError::InvalidDestination)
        );
        assert_eq!(game, before);
    }
    assert_eq!(
        execute(&mut game, Side::Dominion, order(Point::new(0, 0))),
        Err(ActionError::NotYourTurn)
    );
    assert_eq!(
        execute(
            &mut game,
            Side::Player,
            Action::MoveFleet { fleet_id: 42, destination: Point::new(0, 0) }
        ),
        Err(ActionError::UnknownFleet)
    );
    assert_eq!(
        execute(&mut game, Side::Player, order(before.fleets[0].position)),
        Err(ActionError::AlreadyThere)
    );
    assert_eq!(
        execute(&mut game, Side::Player, Action::SecurePlanet { planet: 99 }),
        Err(ActionError::UnknownPlanet)
    );
    assert_eq!(
        execute(&mut game, Side::Player, Action::SecurePlanet { planet: planet("Arcadia") }),
        Err(ActionError::AlreadyYours)
    );
    assert_eq!(
        execute(&mut game, Side::Player, Action::SecurePlanet { planet: planet("Vesper") }),
        Err(ActionError::NoShipInRange)
    );
    assert_eq!(
        execute(&mut game, Side::Player, Action::BuildShip { kind: ShipKind::Scout }),
        Err(ActionError::CannotAfford)
    );
    assert_eq!(game, before);
    game.fleets[0].owner = Side::Dominion;
    assert_eq!(
        execute(&mut game, Side::Player, order(Point::new(0, 0))),
        Err(ActionError::NotYourFleet)
    );
}

#[test]
fn turn_handoff_refills_without_banking_unused_movement() {
    let mut game = Game::default();
    let destination = plus(game.fleets[0].position, Point::units(20, 0));
    execute(&mut game, Side::Player, order(destination)).unwrap();
    execute(&mut game, Side::Player, Action::EndTurn).unwrap();
    assert_eq!(game.active_side, Side::Dominion);
    assert_eq!(game.fleets[0].remaining, SCOUT_SPEED - 20 * SCALE);
    execute(&mut game, Side::Dominion, Action::EndTurn).unwrap();
    assert_eq!(game.turn, 2);
    assert_eq!(game.active_side, Side::Player);
    assert_eq!(game.fleets[0].remaining, SCOUT_SPEED);
    assert_eq!(game.fleets[0].position, destination);
}

#[test]
fn a_move_charts_the_corridor_it_flies_through() {
    let mut game = Game::default();
    let start = game.fleets[0].position;
    let stop = plus(start, Point::new(SCOUT_SPEED, 0));
    let beyond = plus(stop, Point::new(SCOUT_VISION + 20 * SCALE, 0));
    let beside = plus(start, Point::new(SCOUT_SPEED / 2, SCOUT_VISION - 10 * SCALE));
    assert!(game.fog.explored_at(start));
    assert!(!game.fog.explored_at(beside), "Not yet in range of anything");
    assert!(!game.fog.explored_at(beyond));
    let version = game.fog.version();
    execute(&mut game, Side::Player, order(stop)).unwrap();
    assert!(game.fog.explored_at(plus(stop, Point::new(SCOUT_VISION - 20 * SCALE, 0))));
    assert!(game.fog.explored_at(beside), "The corridor along the way is charted");
    assert!(!game.fog.explored_at(beyond));
    assert_ne!(game.fog.version(), version);
    assert_eq!(game.fog.version(), game.versions - 1);
    assert!(game.can_see(Side::Player, plus(stop, Point::new(SCOUT_VISION - 20 * SCALE, 0))));
    assert!(!game.can_see(Side::Player, minus(start, Point::new(SCOUT_VISION, 0))));
}

#[test]
fn securing_takes_turns_in_range_and_decays_when_the_ship_leaves() {
    let table = planets();
    let mut game = Game::default();
    let target = planet("L2-b");
    let position = table[target].position;
    // Park just inside range, then start the effort.
    game.fleets[0].position = plus(position, Point::new(SECURE_RANGE - 5 * SCALE, 0));
    let secure = Action::SecurePlanet { planet: target };
    execute(&mut game, Side::Player, secure).unwrap();
    assert!(game.planets[target].securing);
    assert_eq!(execute(&mut game, Side::Player, secure), Err(ActionError::AlreadySecuring));
    round(&mut game);
    round(&mut game);
    assert_eq!(game.planets[target].influence, 2);
    assert_eq!(game.planets[target].owner, None);
    // Leave: influence decays, and once it is gone the effort is over.
    game.fleets[0].position = plus(position, Point::new(SECURE_RANGE + 50 * SCALE, 0));
    round(&mut game);
    assert_eq!(game.planets[target].influence, 2 - table[target].decay);
    assert!(game.planets[target].securing);
    round(&mut game);
    round(&mut game);
    assert_eq!(game.planets[target].influence, 0);
    assert!(!game.planets[target].securing);
    // Come back and hold for the full count: the world is Farlight's.
    game.fleets[0].position = position;
    execute(&mut game, Side::Player, secure).unwrap();
    for _ in 0..table[target].secure_turns {
        round(&mut game);
    }
    assert_eq!(game.planets[target].owner, Some(Side::Player));
    assert!(!game.planets[target].securing);
    assert_eq!(execute(&mut game, Side::Player, secure), Err(ActionError::AlreadyYours));
}

#[test]
fn an_enemy_in_range_blocks_securing_and_contests_income() {
    let table = planets();
    let mut game = Game::default();
    let home = Game::home_planet();
    let pay = table[home].yield_per_turn;
    assert_eq!(game.income(), pay, "Arcadia pays every turn");
    round(&mut game);
    assert_eq!(game.stockpile, pay);
    let raider = Fleet {
        id: 77,
        name: "Raider".to_string(),
        owner: Side::Dominion,
        position: plus(table[home].position, Point::new(SECURE_RANGE - 10 * SCALE, 0)),
        speed: 100 * SCALE,
        remaining: 100 * SCALE,
        vision: 150 * SCALE,
    };
    game.fleets.push(raider);
    assert!(game.contested(home));
    assert!(game.income().is_empty(), "A contested world pays nothing");
    round(&mut game);
    assert_eq!(game.stockpile, pay);
    // The raider also blocks a securing effort on a nearby free world.
    let target = planet("L2-b");
    game.fleets[0].position = table[target].position;
    game.fleets[1].position = plus(table[target].position, Point::new(0, SECURE_RANGE - SCALE));
    assert_eq!(
        execute(&mut game, Side::Player, Action::SecurePlanet { planet: target }),
        Err(ActionError::EnemyInRange)
    );
}

#[test]
fn the_shipyard_charges_up_front_and_launches_after_two_turns() {
    let table = planets();
    let mut game = Game::default();
    let cost = ShipKind::Scout.cost();
    game.stockpile = cost.plus(Resources::new(1, 1));
    let build = Action::BuildShip { kind: ShipKind::Scout };
    execute(&mut game, Side::Player, build).unwrap();
    assert_eq!(game.stockpile, Resources::new(1, 1));
    assert_eq!(execute(&mut game, Side::Player, build), Err(ActionError::ShipyardBusy));
    assert_eq!(execute(&mut game, Side::Dominion, build), Err(ActionError::NotYourTurn));
    round(&mut game);
    assert_eq!(game.fleets.len(), 1);
    assert_eq!(game.shipyard.as_ref().map(|b| b.turns_left), Some(1));
    round(&mut game);
    assert!(game.shipyard.is_none());
    assert_eq!(game.fleets.len(), 2);
    let launched = &game.fleets[1];
    assert_eq!(launched.name, "Scout 2");
    assert_eq!(launched.owner, Side::Player);
    assert_eq!(launched.remaining, SCOUT_SPEED, "Ready to move on the turn it appears");
    assert!(length(minus(launched.position, table[Game::home_planet()].position)) < 200.0);
    assert_eq!(launched.id, 1);
}

#[test]
fn a_preview_names_the_exact_endpoint_and_cost() {
    let game = Game::default();
    let start = game.fleets[0].position;
    let result = preview(&game, Side::Player, order(plus(start, Point::units(0, 40))));
    assert_eq!(
        result,
        Ok(Preview::Move { destination: plus(start, Point::units(0, 40)), cost: 40 * SCALE })
    );
    // Beyond range the endpoint is capped in the same direction.
    let result = preview(&game, Side::Player, order(plus(start, Point::units(0, 400))));
    assert_eq!(
        result,
        Ok(Preview::Move { destination: plus(start, Point::new(0, SCOUT_SPEED)), cost: SCOUT_SPEED })
    );
}

#[test]
fn the_dominion_cannot_build_or_salvage_and_the_turn_counter_stops_at_its_limit() {
    let mut game = Game::default();
    execute(&mut game, Side::Player, Action::EndTurn).unwrap();
    assert_eq!(
        execute(&mut game, Side::Dominion, Action::BuildShip { kind: ShipKind::Scout }),
        Err(ActionError::NoShipyard)
    );
    let poi = game.pois[0].id;
    assert_eq!(
        execute(&mut game, Side::Dominion, Action::Salvage { poi }),
        Err(ActionError::NoStockpile)
    );
    game.turn = u64::MAX;
    assert_eq!(execute(&mut game, Side::Dominion, Action::EndTurn), Err(ActionError::TurnLimit));
    assert_eq!(game.turn, u64::MAX);
}

#[test]
fn salvage_needs_a_ship_close_by_and_a_wreck_that_is_still_there() {
    let mut game = Game::default();
    let wreck = game.pois[4].clone();
    assert_eq!(
        execute(&mut game, Side::Player, Action::Salvage { poi: wreck.id }),
        Err(ActionError::NoSalvageShip)
    );
    game.fleets[0].position = plus(wreck.position, Point::units(60, 0));
    let before = game.stockpile;
    assert_eq!(
        execute(&mut game, Side::Player, Action::Salvage { poi: wreck.id }),
        Ok(Preview::Salvage { poi: wreck.id })
    );
    assert!(game.stockpile.alloys >= before.alloys + 6);
    assert!(game.poi(wreck.id).is_none());
    assert_eq!(
        execute(&mut game, Side::Player, Action::Salvage { poi: wreck.id }),
        Err(ActionError::UnknownPoi)
    );
}

#[test]
fn every_error_reads_as_a_sentence() {
    assert_eq!(ActionError::NoSalvageShip.message(), "No ship within 100 units to salvage it.");
    assert_eq!(ActionError::CannotAfford.message(), "Not enough resources.");
    assert_eq!(ActionError::NotYourTurn.message(), "It is not your turn.");
    assert_eq!(Action::EndTurn.definition().name, "End Turn");
}

#[test]
fn the_room_an_action_needs_is_exactly_what_it_adds() {
    let mut game = Game::default();
    // Arcadia pays 3 Alloys and 1 Advanced Electronics a turn.
    game.stockpile = Resources::new(u32::MAX - 3, u32::MAX - 1);
    assert!(has_room(&game, Side::Player, Action::EndTurn));
    game.stockpile = Resources::new(u32::MAX - 2, u32::MAX - 1);
    assert!(!has_room(&game, Side::Player, Action::EndTurn));
    // Out of turn the rules refuse the order before anything is added.
    assert!(has_room(&game, Side::Dominion, Action::EndTurn));
    assert!(has_room(&game, Side::Player, Action::SecurePlanet { planet: 0 }));
    let wreck = game.pois[0].id;
    assert!(!game.salvage_room(wreck), "A wreck pays at least 6 Alloys");
    game.stockpile = Resources::new(u32::MAX - 12, u32::MAX - 4);
    assert!(game.salvage_room(wreck), "and at most 12 Alloys and 4 Electronics");
    assert!(game.salvage_room(u32::MAX), "No such wreck, nothing to add");
    game.stockpile = Resources::new(0, 0);
    // Ids are needed only for empty sectors whose clocks run out.
    assert_eq!(game.respawns_due(), 0, "Every sector holds its point");
    game.next_poi_id = u32::MAX;
    assert!(game.end_turn_room());
    let gone = game.pois.remove(0);
    game.respawn[gone.sector] = 1;
    assert_eq!(game.respawns_due(), 1);
    assert!(!game.end_turn_room());
    game.next_poi_id = u32::MAX - 1;
    assert!(game.end_turn_room());
    game.respawn[gone.sector] = 2;
    game.next_poi_id = u32::MAX;
    assert!(game.end_turn_room(), "A clock with turns left needs no id yet");
}
