use starfall_dominion::fog::{next_version, Fog, CELL, COLUMNS, ROWS};
use starfall_dominion::geometry::{distance, isqrt, within, Point, SCALE, WORLD_HEIGHT, WORLD_WIDTH};

fn units(x: i64, y: i64) -> Point {
    Point::units(x, y)
}

#[test]
fn reveal_marks_a_disc_and_nothing_outside_the_map() {
    let mut fog = Fog::new(1);
    assert!(!fog.explored_at(units(500, 500)));
    fog.reveal_disc(units(500, 500), 100 * SCALE);
    assert!(fog.explored_at(units(500, 500)));
    assert!(fog.explored_at(units(590, 500)));
    assert!(!fog.explored_at(units(620, 500)));
    assert!(!fog.explored_at(units(-5, 500)));
    assert!(!fog.explored_at(Point::new(500 * SCALE, WORLD_HEIGHT + 5 * SCALE)));
    // Discs at the edge clip cleanly instead of wrapping to the next row.
    fog.reveal_disc(Point::new(WORLD_WIDTH, 1000 * SCALE), 50 * SCALE);
    assert!(!fog.explored_at(units(5, 1000)));
    assert!(!fog.explored_at(units(5, 1010)));
}

#[test]
fn texture_lights_explored_cells_only_within_sources() {
    let mut fog = Fog::new(1);
    fog.reveal_disc(units(100, 100), 50 * SCALE);
    let bytes = fog.texture(&vec![(units(100, 100), 20 * SCALE)]);
    assert_eq!(bytes.len(), COLUMNS * ROWS * 2);
    let at = |x: i64, y: i64| {
        let index = (((y * SCALE / CELL) as usize) * COLUMNS + (x * SCALE / CELL) as usize) * 2;
        (bytes[index], bytes[index + 1])
    };
    assert_eq!(at(105, 105), (255, 255));
    assert_eq!(at(140, 100), (255, 0));
    assert_eq!(at(200, 200), (0, 0));
    // Light never leaks into uncharted space.
    let dark = Fog::new(1).texture(&vec![(units(100, 100), 500 * SCALE)]);
    assert!(dark.iter().all(|byte| *byte == 0));
}

#[test]
fn touching_changes_the_version_but_not_the_chart() {
    let mut versions: u64 = 1;
    let mut fog = Fog::new(next_version(&mut versions));
    assert_eq!(fog.version(), 1);
    fog.reveal_disc(units(300, 300), 40 * SCALE);
    let before = fog.clone();
    fog.touch(next_version(&mut versions));
    assert_ne!(fog.version(), before.version());
    assert_eq!(fog.version(), 2);
    assert!(fog.explored_at(units(300, 300)));
    // A second chart from the same counter never repeats a version.
    let other = Fog::new(next_version(&mut versions));
    assert_eq!(other.version(), 3);
    assert_eq!(versions, 4);
}

#[test]
fn the_version_counter_hands_out_each_number_once_and_wraps() {
    let mut versions: u64 = 41;
    assert_eq!(next_version(&mut versions), 41);
    assert_eq!(next_version(&mut versions), 42);
    assert_eq!(versions, 43);
    let mut last: u64 = u64::MAX;
    assert_eq!(next_version(&mut last), u64::MAX);
    assert_eq!(last, 0);
}

#[test]
fn a_negative_radius_charts_and_lights_nothing() {
    let mut fog = Fog::new(1);
    fog.reveal_disc(units(500, 500), -10 * SCALE);
    assert!(!fog.explored_at(units(500, 500)));
    fog.reveal_disc(units(500, 500), 30 * SCALE);
    let bytes = fog.texture(&vec![(units(500, 500), -1)]);
    let index = ((500 * SCALE / CELL) as usize * COLUMNS + (500 * SCALE / CELL) as usize) * 2;
    assert_eq!((bytes[index], bytes[index + 1]), (255, 0));
    assert!(!within(units(0, 0), units(0, 0), -1));
}

#[test]
fn a_path_charts_both_ends_and_the_middle() {
    let mut fog = Fog::new(1);
    fog.reveal_path(units(100, 1000), units(900, 1000), 30 * SCALE);
    for x in [100, 300, 500, 700, 900] {
        assert!(fog.explored_at(units(x, 1000)), "{x} is charted");
    }
    assert!(!fog.explored_at(units(500, 1100)));
    assert!(!fog.explored_at(units(1000, 1000)));
}

#[test]
fn distances_round_down_to_a_step() {
    assert_eq!(isqrt(0), 0);
    assert_eq!(isqrt(15), 3);
    assert_eq!(isqrt(16), 4);
    assert_eq!(distance(units(0, 0), units(3, 4)), 5 * SCALE as u128);
    assert_eq!(distance(Point::new(0, 0), Point::new(1, 1)), 1);
    assert!(within(units(0, 0), units(3, 4), 5 * SCALE));
    assert!(!within(units(0, 0), units(3, 4), 5 * SCALE - 1));
}
