use starfall_dominion::economy::{fleet_name, short, Resource, Resources, ShipKind};
use starfall_dominion::icons::Icon;
use starfall_dominion::planets::{planets, HOME, PLANET_COUNT};
use starfall_dominion::world::{Game, Side};

#[test]
fn resources_add_pay_and_never_go_negative() {
    let stock = Resources::new(10, 3);
    let cost = ShipKind::Scout.cost();
    assert_eq!(cost, Resources::new(10, 5));
    assert!(!stock.covers(cost));
    assert_eq!(stock.minus(cost), Resources::new(0, 0));
    assert_eq!(stock.plus(Resources::new(1, 2)), Resources::new(11, 5));
    assert!(stock.plus(Resources::new(1, 2)).covers(cost));
    // Paying back what was just added leaves the amount as it was.
    assert_eq!(stock.plus(cost).minus(cost), stock);
    assert_eq!(stock.get(Resource::Alloys), 10);
    assert_eq!(stock.get(Resource::Electronics), 3);
    assert!(Resources::default().is_empty());
    assert!(!stock.is_empty());
}

#[test]
fn names_read_as_the_player_sees_them() {
    assert_eq!(Resource::Alloys.name(), "Alloys");
    assert_eq!(Resource::Electronics.name(), "Advanced Electronics");
    assert_eq!(short(Resource::Electronics), "Electronics");
    assert_eq!(ShipKind::Scout.name(), "Scout");
    assert_eq!(ShipKind::Scout.build_turns(), 2);
    assert_eq!(Side::Player.name(), "Farlight");
    assert_eq!(Side::Dominion.name(), "Starfall");
    assert_eq!(Icon::Secure.name(), "Turns to secure");
    assert_eq!(Icon::Decay.name(), "Influence lost per turn without a ship");
    assert_eq!(Icon::Alloys.name(), "Alloys");
    assert_eq!(fleet_name(ShipKind::Scout, 12), "Scout 12");
    assert_eq!(fleet_name(ShipKind::Scout, 0), "Scout 0");
}

#[test]
fn arcadia_is_the_home_world_and_the_only_one_farlight_holds() {
    let table = planets();
    assert_eq!(table.len(), PLANET_COUNT);
    assert_eq!(Game::home_planet(), HOME);
    assert_eq!(table[HOME].name, "Arcadia");
    let game = Game::default();
    let held: Vec<usize> =
        (0..PLANET_COUNT).filter(|i| game.planets[*i].owner == Some(Side::Player)).collect();
    assert_eq!(held, vec![HOME]);
    assert_eq!(game.income(), Resources::new(3, 1));
    assert!(game.end_turn_room());
    assert_eq!(game.income_after_securing(), Resources::new(3, 1));
}
