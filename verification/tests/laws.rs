use starfall_dominion::actions::{execute, preview, Action, Preview};
use starfall_dominion::fog::{CELL, COLUMNS, ROWS};
use starfall_dominion::geometry::{Point, WORLD_HEIGHT, WORLD_WIDTH};
use starfall_dominion::world::{Game, Side, SCOUT_SPEED};

fn charted_cells(game: &Game) -> Vec<bool> {
    let mut cells = Vec::new();
    for row in 0..ROWS as i64 {
        for column in 0..COLUMNS as i64 {
            cells.push(game.fog.explored_at(Point::new(column * CELL + CELL / 2, row * CELL + CELL / 2)));
        }
    }
    cells
}

fn one_point_per_sector(game: &Game) -> bool {
    let mut seen = Vec::new();
    game.pois.iter().all(|poi| {
        let fresh = !seen.contains(&poi.sector);
        seen.push(poi.sector);
        fresh
    })
}

#[test]
fn charted_cells_stay_charted_through_orders_and_turns() {
    let mut game = Game::new(5);
    let mut before = charted_cells(&game);
    let orders = [Point::units(600, 1000), Point::units(600, 700), Point::units(900, 700)];
    for destination in orders {
        execute(&mut game, Side::Player, Action::MoveFleet { fleet_id: 0, destination }).ok();
        execute(&mut game, Side::Player, Action::EndTurn).unwrap();
        execute(&mut game, Side::Dominion, Action::EndTurn).unwrap();
        let after = charted_cells(&game);
        assert!(before.iter().zip(&after).all(|(was, is)| !*was || *is));
        assert!(after.iter().filter(|c| **c).count() > before.iter().filter(|c| **c).count());
        before = after;
    }
}

#[test]
fn a_move_toward_any_corner_stays_on_the_map_and_within_budget() {
    let targets = [
        Point::new(-WORLD_WIDTH, -WORLD_HEIGHT),
        Point::new(2 * WORLD_WIDTH, -WORLD_HEIGHT),
        Point::new(-WORLD_WIDTH, 2 * WORLD_HEIGHT),
        Point::new(2 * WORLD_WIDTH, 2 * WORLD_HEIGHT),
    ];
    for corner in [Point::new(0, 0), Point::new(WORLD_WIDTH, WORLD_HEIGHT), Point::units(5, 1995)] {
        for target in targets {
            let mut game = Game::default();
            game.fleets[0].position = corner;
            if let Ok(Preview::Move { destination, cost }) =
                preview(&game, Side::Player, Action::MoveFleet { fleet_id: 0, destination: target })
            {
                assert!((0..=WORLD_WIDTH).contains(&destination.x));
                assert!((0..=WORLD_HEIGHT).contains(&destination.y));
                assert!(0 < cost && cost <= SCOUT_SPEED);
            }
        }
    }
}

#[test]
fn a_new_game_knows_only_what_home_and_the_scout_can_see() {
    let game = Game::new(9);
    let cells = charted_cells(&game);
    for row in 0..ROWS as i64 {
        for column in (0..COLUMNS as i64).step_by(7) {
            let middle = Point::new(column * CELL + CELL / 2, row * CELL + CELL / 2);
            let index = (row * COLUMNS as i64 + column) as usize;
            assert_eq!(cells[index], game.can_see(Side::Player, middle), "cell {column}, {row}");
        }
    }
    assert_eq!(game.turn, 1);
    assert!(game.stockpile.is_empty());
    assert!(one_point_per_sector(&game));
}

#[test]
fn salvage_and_respawns_keep_one_point_per_sector() {
    let mut game = Game::new(3);
    for round in 0..40 {
        if round % 5 == 0 {
            if let Some(poi) = game.pois.first().cloned() {
                game.salvage(poi.id);
            }
        }
        execute(&mut game, Side::Player, Action::EndTurn).unwrap();
        execute(&mut game, Side::Dominion, Action::EndTurn).unwrap();
        assert!(one_point_per_sector(&game), "round {round}");
    }
    assert_eq!(game.turn, 41);
}

#[test]
fn movement_never_builds_up_past_a_ships_speed() {
    let mut game = Game::default();
    game.stockpile = starfall_dominion::economy::ShipKind::Scout.cost();
    execute(&mut game, Side::Player, Action::BuildShip { kind: starfall_dominion::economy::ShipKind::Scout })
        .unwrap();
    for step in 0..6 {
        if step % 2 == 0 {
            let target = Point::units(400 + step * 30, 900);
            execute(&mut game, Side::Player, Action::MoveFleet { fleet_id: 0, destination: target }).ok();
        }
        execute(&mut game, Side::Player, Action::EndTurn).unwrap();
        execute(&mut game, Side::Dominion, Action::EndTurn).unwrap();
        assert!(game.fleets.iter().all(|fleet| 0 <= fleet.remaining && fleet.remaining <= fleet.speed));
    }
    assert_eq!(game.fleets.len(), 2);
    assert!(game.fleets.iter().all(|fleet| fleet.remaining == SCOUT_SPEED));
}
