use starfall_dominion::actions::{execute, Action};
use starfall_dominion::geometry::{Point, SCALE};
use starfall_dominion::layout::{region_index, regions};
use starfall_dominion::planets::planets;
use starfall_dominion::poi::{Poi, PoiKind, CLEARANCE, RESPAWN_HIGH, RESPAWN_LOW, STARTER_HIGH, STARTER_LOW};
use starfall_dominion::rng::Rng;
use starfall_dominion::world::{Game, Side};

fn round(game: &mut Game) {
    execute(game, Side::Player, Action::EndTurn).unwrap();
    execute(game, Side::Dominion, Action::EndTurn).unwrap();
}

fn distance(a: Point, b: Point) -> f64 {
    ((a.x - b.x) as f64).hypot((a.y - b.y) as f64)
}

#[test]
fn one_point_per_sector_clear_of_planets_and_out_of_sight() {
    let game = Game::default();
    let table = regions();
    let worlds = planets();
    assert_eq!(game.pois.len(), table.len());
    for (sector, region) in table.iter().enumerate() {
        let here: Vec<&Poi> = game.pois.iter().filter(|poi| poi.sector == sector).collect();
        assert_eq!(here.len(), 1, "sector {}", region.name);
        let poi = here[0];
        assert!(region.contains(poi.position), "{} sits outside its sector", region.name);
        assert!(worlds.iter().all(|planet| distance(planet.position, poi.position) >= CLEARANCE as f64));
        assert!(!game.can_see(Side::Player, poi.position), "{} starts in sight", region.name);
    }
    let start = game.fleets[0].position;
    let home = region_index(start).expect("the scout starts on the map");
    let starter = game.pois.iter().find(|poi| poi.sector == home).unwrap();
    let distance = distance(starter.position, start);
    assert!(
        (STARTER_LOW as f64..=STARTER_HIGH as f64).contains(&distance),
        "the starter is {} from the scout",
        distance / SCALE as f64
    );
}

#[test]
fn the_same_seed_makes_the_same_map_and_another_seed_does_not() {
    let a = Game::new(42);
    let b = Game::new(42);
    let c = Game::new(43);
    assert_eq!(a.pois, b.pois);
    assert_ne!(a.pois, c.pois);
}

#[test]
fn a_salvaged_sector_respawns_after_its_clock_out_of_sight() {
    let table = regions();
    let mut game = Game::default();
    let poi = game.pois[5].clone();
    let reward = game.salvage(poi.id);
    assert_eq!(game.stockpile, reward);
    assert!(game.poi(poi.id).is_none());
    let clock = game.respawn[poi.sector];
    assert!((RESPAWN_LOW..=RESPAWN_HIGH).contains(&clock));
    for turn in 0..clock {
        assert!(!game.pois.iter().any(|p| p.sector == poi.sector), "respawned early on turn {turn}");
        round(&mut game);
    }
    let fresh = game.pois.iter().find(|p| p.sector == poi.sector).expect("respawned");
    assert_ne!(fresh.id, poi.id);
    assert!(table[poi.sector].contains(fresh.position));
    assert!(!game.can_see(Side::Player, fresh.position));
}

#[test]
fn a_wreck_pays_six_to_twelve_alloys_and_sometimes_electronics() {
    let mut rng = Rng::new(11);
    let mut with_electronics = 0;
    for _ in 0..500 {
        let loot = PoiKind::DestroyedStation.roll(&mut rng);
        assert!((6..=12).contains(&loot.alloys));
        assert!(loot.electronics == 0 || (2..=4).contains(&loot.electronics));
        if loot.electronics > 0 {
            with_electronics += 1;
        }
    }
    assert!((100..250).contains(&with_electronics), "{with_electronics} of 500 at 35%");
    assert_eq!(PoiKind::DestroyedStation.name(), "Destroyed Space Station");
    assert_eq!(PoiKind::DestroyedStation.short_name(), "Station");
    assert_eq!(PoiKind::DestroyedStation.alloys(), (6, 12));
}

#[test]
fn sectors_without_a_point_wait_out_their_clock() {
    let mut game = Game::default();
    let sector = game.pois[2].sector;
    let id = game.pois[2].id;
    game.salvage(id);
    game.respawn[sector] = 3;
    game.advance_pois();
    assert_eq!(game.respawn[sector], 2);
    assert!(!game.sector_occupied(sector));
    game.advance_pois();
    game.advance_pois();
    assert_eq!(game.respawn[sector], 0);
    assert!(game.sector_occupied(sector));
}
