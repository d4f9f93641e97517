use starfall_dominion::actions::{execute, Action};
use starfall_dominion::economy::{Resources, ShipKind};
use starfall_dominion::fog::{CELL, COLUMNS, ROWS};
use starfall_dominion::geometry::{Point, SCALE};
use starfall_dominion::layout::region_index;
use starfall_dominion::planets::{planets, Planet};
use starfall_dominion::shell::{clock_seed, Key, KeyPress, Screen, Selection, Shell, Widget, DRAG_THRESHOLD};
use starfall_dominion::world::{Side, SCOUT_SPEED};

/// A 1280 × 800 window at scale 1: the map runs below the 75-pixel Command
/// Strip, and a fresh game's camera centres the scout with 450 units across.
const MAP_CENTER: (f64, f64) = (640.0, 437.5);
const PIXELS_PER_UNIT: f64 = 1280.0 / 450.0;

/// Where a click at pixel `(x, y)` lands on the map of a fresh game.
fn map_point(ui: &Shell, x: f64, y: f64) -> Point {
    let center = ui.game.fleets[0].position;
    let world_x = (x - MAP_CENTER.0) / PIXELS_PER_UNIT * SCALE as f64 + center.x as f64;
    let world_y = (y - MAP_CENTER.1) / PIXELS_PER_UNIT * SCALE as f64 + center.y as f64;
    Point::new(world_x.round() as i64, world_y.round() as i64)
}

fn planet(name: &str) -> (usize, Planet) {
    let table = planets();
    let index = table.iter().position(|planet| planet.name == name).expect("a named planet");
    let found = planets().swap_remove(index);
    (index, found)
}

/// A right click without movement: deselects.
fn right_click(ui: &mut Shell, x: i64, y: i64) {
    ui.right_press(x, y);
    ui.right_release();
}

/// A point `distance` units from `from` toward `to`.
fn toward(from: Point, to: Point, distance: f64) -> Point {
    let (dx, dy) = ((to.x - from.x) as f64, (to.y - from.y) as f64);
    let length = dx.hypot(dy);
    Point::new(
        from.x + (dx / length * distance * SCALE as f64).round() as i64,
        from.y + (dy / length * distance * SCALE as f64).round() as i64,
    )
}

fn press(key: Key) -> KeyPress {
    KeyPress { key, shift: false, repeat: false }
}

fn started() -> Shell {
    let mut ui = Shell::new(7);
    ui.activate(Widget::StartGame, 7);
    assert_eq!(ui.screen, Screen::Sector);
    ui
}

#[test]
fn keyboard_can_start_and_escape_returns_to_menu() {
    let mut ui = Shell::new(7);
    ui.key(press(Key::Tab), 7);
    ui.key(press(Key::Enter), 7);
    assert_eq!(ui.screen, Screen::Sector);
    ui.key(press(Key::Escape), 7);
    assert_eq!(ui.screen, Screen::MainMenu);
}

#[test]
fn escape_drops_the_ship_then_closes_the_panel_then_leaves() {
    let mut ui = started();
    ui.click_ship(0);
    ui.click_map(Point::units(2000, 1500));
    ui.selected_fleet = Some(0);
    ui.selected = Some(Selection::Planet(2));
    ui.key(press(Key::Escape), 7);
    assert_eq!(ui.selected_fleet, None);
    assert_eq!(ui.selected, Some(Selection::Planet(2)));
    ui.key(press(Key::Escape), 7);
    assert_eq!(ui.selected, None);
    assert_eq!(ui.screen, Screen::Sector);
    ui.key(KeyPress { key: Key::Escape, shift: false, repeat: true }, 7);
    assert_eq!(ui.screen, Screen::Sector, "A held key does not repeat its way out");
    ui.key(press(Key::Escape), 7);
    assert_eq!(ui.screen, Screen::MainMenu);
}

#[test]
fn a_right_drag_keeps_the_selection_and_a_right_click_drops_it() {
    let mut ui = started();
    ui.click_ship(0);
    assert_eq!(ui.selected_fleet, Some(0));
    ui.right_press(700, 300);
    ui.pointer_moved(760, 340, DRAG_THRESHOLD);
    ui.right_release();
    assert_eq!(ui.selected_fleet, Some(0), "A drag keeps the selection");
    ui.right_press(700, 300);
    ui.pointer_moved(703, 302, DRAG_THRESHOLD);
    ui.right_release();
    assert_eq!(ui.selected_fleet, None, "A plain right click drops it");
    assert_eq!(ui.screen, Screen::Sector);
}

#[test]
fn a_selected_ship_flies_toward_a_clicked_spot_and_a_planet() {
    let mut ui = started();
    let start = ui.game.fleets[0].position;
    ui.click_ship(0);
    ui.click_map(Point::new(start.x + 40 * SCALE, start.y));
    assert_eq!(ui.game.fleets[0].position, Point::new(start.x + 40 * SCALE, start.y));
    assert_eq!(ui.game.fleets[0].remaining, SCOUT_SPEED - 40 * SCALE);
    ui.click_planet(5);
    assert_eq!(ui.game.fleets[0].remaining, 0);
    assert_eq!(ui.message, None);
    ui.click_map(Point::units(10, 10));
    assert_eq!(ui.message.as_deref(), Some("No movement remaining this turn."));
}

#[test]
fn tab_walks_the_buttons_both_ways() {
    let mut ui = started();
    ui.key(press(Key::Tab), 7);
    assert_eq!(ui.focus, Some(Widget::Menu));
    ui.key(press(Key::Tab), 7);
    assert_eq!(ui.focus, Some(Widget::EndTurn));
    ui.key(press(Key::Space), 7);
    assert_eq!(ui.game.turn, 2);
    ui.focus = None;
    ui.key(KeyPress { key: Key::Tab, shift: true, repeat: false }, 7);
    assert_eq!(ui.focus, Some(Widget::EndTurn));
}

#[test]
fn the_clock_seed_keeps_the_low_bits() {
    assert_eq!(clock_seed(5), 5);
    assert_eq!(clock_seed((1u128 << 64) + 9), 9);
}

#[test]
fn clicks_on_ui_are_not_orders_and_a_right_click_deselects() {
    let mut ui = started();
    let before = ui.game.clone();
    let empty = map_point(&ui, 900.0, 400.0);
    ui.click_map(empty);
    assert_eq!(ui.game, before, "Nothing selected, nothing moves");
    // The scout sits in the middle of the map at the start.
    ui.click_ship(0);
    assert!(ui.selected_fleet.is_some());
    ui.activate(Widget::EndTurn, 7);
    assert_eq!(ui.game.turn, 2, "The button wins over the map");
    assert_eq!(ui.game.fleets[0].position, before.fleets[0].position);
    // A click at (200, 45) lands on the Command Strip, which is not the map:
    // no order goes out.
    assert_eq!(ui.game.fleets[0].position, before.fleets[0].position, "The Command Strip is not the map");
    assert!(ui.selected_fleet.is_some());
    ui.right_press(700, 300);
    ui.pointer_moved(760, 340, DRAG_THRESHOLD);
    ui.right_release();
    assert!(ui.selected_fleet.is_some(), "A drag keeps the selection");
    right_click(&mut ui, 700, 300);
    assert!(ui.selected_fleet.is_none(), "A plain right click drops it");
    assert_eq!(ui.screen, Screen::Sector);
}

#[test]
fn start_planet_details_and_return_work_at_both_display_scales() {
    for _scale in [1.0, 1.4] {
        let mut ui = Shell::new(7);
        ui.activate(Widget::StartGame, 7);
        assert_eq!(ui.screen, Screen::Sector);
        let (arcadia, _) = planet("Arcadia");
        ui.click_planet(arcadia);
        assert_eq!(ui.selected, Some(Selection::Planet(2)));
        // Empty space, away from the panel down the left: closes it.
        let empty = map_point(&ui, 1000.0, 300.0);
        ui.click_map(empty);
        assert_eq!(ui.selected, None);
        ui.activate(Widget::Menu, 7);
        assert_eq!(ui.screen, Screen::MainMenu);
    }
}

#[test]
fn the_home_world_shipyard_builds_a_scout_when_you_can_afford_it() {
    let mut ui = started();
    let (arcadia, home) = planet("Arcadia");
    ui.click_planet(arcadia);
    ui.choose_tab(1);
    ui.build(ShipKind::Scout);
    assert_eq!(ui.message.as_deref(), Some("Not enough resources."));
    assert!(ui.game.shipyard.is_none());
    ui.game.stockpile = Resources::new(10, 5);
    ui.build(ShipKind::Scout);
    assert!(ui.game.shipyard.is_some());
    assert!(ui.game.stockpile.is_empty());
    right_click(&mut ui, 1000, 300);
    assert_eq!(ui.selected, None, "A right click closes the panel");
    ui.activate(Widget::EndTurn, 7);
    ui.activate(Widget::EndTurn, 7);
    assert_eq!(ui.game.fleets.len(), 2, "Two turns later the scout launches");
    assert_eq!(ui.game.fleets[1].name, "Scout 2");
    let pay = home.yield_per_turn;
    assert_eq!(ui.game.stockpile, pay.plus(pay), "Arcadia paid out twice meanwhile");
}

#[test]
fn securing_a_planet_from_the_panel_takes_turns_in_range() {
    let mut ui = started();
    ui.click_ship(0);
    let origin = ui.game.fleets[0].position;
    let (index, target) = planet("L2-b");
    // Short of a full move so the target point stays inside the small test window.
    let stop = toward(origin, target.position, (SCOUT_SPEED / SCALE - 20) as f64);
    ui.click_map(stop);
    assert!(ui.game.fog.explored_at(target.position), "Now in sight");
    right_click(&mut ui, 700, 300);
    assert!(ui.selected_fleet.is_none());
    ui.click_planet(index);
    ui.secure(index);
    assert!(ui.game.planets[3].securing);
    right_click(&mut ui, 1000, 300);
    for _ in 0..target.secure_turns {
        ui.activate(Widget::EndTurn, 7);
    }
    assert_eq!(ui.game.planets[3].owner, Some(Side::Player));
}

#[test]
fn a_wreck_hides_until_charted_then_salvages_from_its_panel() {
    let mut ui = started();
    let start = ui.game.fleets[0].position;
    let home = region_index(start).expect("the scout starts on the map");
    let wreck = ui.game.pois.iter().find(|poi| poi.sector == home).expect("a starter wreck").clone();
    assert!(!ui.game.fog.explored_at(wreck.position), "Just out of sight");
    // Fly a full move toward it by the rules; the corridor charts it.
    let order = Action::MoveFleet { fleet_id: 0, destination: toward(start, wreck.position, 150.0) };
    execute(&mut ui.game, Side::Player, order).unwrap();
    assert!(ui.game.fog.explored_at(wreck.position), "Now charted");
    ui.click_poi(wreck.id);
    assert_eq!(ui.selected, Some(Selection::Poi(wreck.id)));
    ui.salvage(wreck.id);
    assert_eq!(
        ui.message.as_deref(),
        Some("No ship within 100 units to salvage it."),
        "Still more than a hundred units short"
    );
    // Next turn, close the gap by the rules and haul it home.
    ui.activate(Widget::EndTurn, 7);
    let ship = ui.game.fleets[0].position;
    let gap = ((wreck.position.x - ship.x) as f64).hypot((wreck.position.y - ship.y) as f64) / SCALE as f64;
    let order = Action::MoveFleet { fleet_id: 0, destination: toward(ship, wreck.position, gap - 50.0) };
    execute(&mut ui.game, Side::Player, order).unwrap();
    let before = ui.game.stockpile;
    ui.salvage(wreck.id);
    assert!(ui.game.poi(wreck.id).is_none(), "The wreck is gone");
    assert_eq!(ui.selected, None, "Its panel closed with it");
    assert!(ui.game.stockpile.alloys >= before.alloys + 6);
    assert!(ui.message.as_deref().is_some_and(|m| m.starts_with("Salvaged ")));
    let (alloys, electronics) =
        (ui.game.stockpile.alloys - before.alloys, ui.game.stockpile.electronics - before.electronics);
    let expected = if electronics > 0 {
        format!("Salvaged {alloys} Alloys and {electronics} Advanced Electronics.")
    } else {
        format!("Salvaged {alloys} Alloys.")
    };
    assert_eq!(ui.message.as_deref(), Some(expected.as_str()));
}

#[test]
fn a_new_game_never_repeats_a_chart_version() {
    let mut ui = started();
    let first = ui.game.fog.version();
    ui.end_turn();
    let later = ui.game.fog.version();
    assert!(later > first);
    ui.leave();
    ui.activate(Widget::StartGame, 7);
    assert!(ui.game.fog.version() > later, "The next game counts on from the last");
}

#[test]
fn end_turn_plays_on_while_the_income_still_fits() {
    let mut ui = started();
    ui.game.stockpile = Resources::new(u32::MAX - 3, u32::MAX - 1);
    ui.end_turn();
    assert_eq!(ui.message, None);
    assert_eq!(ui.game.stockpile, Resources::new(u32::MAX, u32::MAX));
    let kept = ui.game.clone();
    ui.end_turn();
    assert_eq!(ui.message.as_deref(), Some("The stockpile and the fleet registers are full."));
    assert_eq!(ui.game, kept);
}

#[test]
fn fog_uploads_once_per_change_and_lights_only_what_you_can_see() {
    let mut ui = started();
    let version = ui.game.fog.version();
    let lights = ui.game.vision_sources(Side::Player);
    let bytes = ui.game.fog.texture(&lights);
    assert_eq!(bytes.len(), COLUMNS * ROWS * 2);
    let cell = |point: Point| {
        let index = ((point.y / CELL) as usize * COLUMNS + (point.x / CELL) as usize) * 2;
        (bytes[index], bytes[index + 1])
    };
    assert_eq!(cell(planet("Arcadia").1.position), (255, 255), "Home is charted and lit");
    assert_eq!(cell(planet("Vesper").1.position), (0, 0), "The far east is dark");
    assert_eq!(ui.game.fog.version(), version, "Nothing changed, so nothing re-uploads");
    ui.click_ship(0);
    let target = Point::new(ui.game.fleets[0].position.x + 100 * SCALE, ui.game.fleets[0].position.y);
    ui.click_map(target);
    assert_ne!(ui.game.fog.version(), version, "A move changes what is in view");
}

#[test]
fn tab_reaches_planets_and_ships_and_enter_presses_them() {
    let mut ui = started();
    let (home, _) = planet("Arcadia");
    ui.set_focusable(vec![Widget::Menu, Widget::EndTurn, Widget::Planet(home), Widget::Ship(0), Widget::ClosePanel]);
    ui.key(press(Key::Tab), 7);
    ui.key(press(Key::Tab), 7);
    ui.key(press(Key::Tab), 7);
    assert_eq!(ui.focus, Some(Widget::Planet(home)));
    ui.key(press(Key::Enter), 7);
    assert_eq!(ui.selected, Some(Selection::Planet(home)));
    ui.key(press(Key::Tab), 7);
    assert_eq!(ui.focus, Some(Widget::Ship(0)));
    ui.key(press(Key::Space), 7);
    assert_eq!(ui.selected_fleet, Some(0));
    assert_eq!(ui.selected, None);
    ui.key(KeyPress { key: Key::Tab, shift: true, repeat: false }, 7);
    assert_eq!(ui.focus, Some(Widget::Planet(home)));
    ui.key(press(Key::Tab), 7);
    ui.key(press(Key::Tab), 7);
    assert_eq!(ui.focus, Some(Widget::ClosePanel));
    ui.key(press(Key::Tab), 7);
    assert_eq!(ui.focus, Some(Widget::Menu), "The ring wraps round");
}
