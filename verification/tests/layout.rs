use starfall_dominion::geometry::{Point, SCALE, WORLD_HEIGHT, WORLD_WIDTH};
use starfall_dominion::layout::{borders, region_index, region_of, regions};
use starfall_dominion::planets::planets;

fn to_units(p: Point) -> (f64, f64) {
    (p.x as f64 / SCALE as f64, p.y as f64 / SCALE as f64)
}

fn distance_to_segment(point: Point, a: Point, b: Point) -> f64 {
    let (px, py) = to_units(point);
    let (ax, ay) = to_units(a);
    let (bx, by) = to_units(b);
    let (ex, ey) = (bx - ax, by - ay);
    let length = ex * ex + ey * ey;
    let t = if length == 0.0 { 0.0 } else { (((px - ax) * ex + (py - ay) * ey) / length).clamp(0.0, 1.0) };
    let (cx, cy) = (ax + ex * t, ay + ey * t);
    (px - cx).hypot(py - cy)
}

fn near_a_border(borders: &[(Point, Point)], point: Point) -> bool {
    borders.iter().any(|(a, b)| distance_to_segment(point, *a, *b) < 3.0)
}

#[test]
fn thirteen_sectors_tile_the_map_exactly_once() {
    let table = regions();
    let counts = ["L", "M", "R"].map(|side| table.iter().filter(|r| r.name.starts_with(side)).count());
    assert_eq!(counts, [5, 3, 5]);
    let borders = borders();
    let mut y = 12 * SCALE;
    while y < WORLD_HEIGHT {
        let mut x = 12 * SCALE;
        while x < WORLD_WIDTH {
            let point = Point::new(x, y);
            if !near_a_border(&borders, point) {
                let hits = table.iter().filter(|r| r.contains(point)).count();
                assert_eq!(hits, 1, "{point:?} lies in {hits} sectors");
            }
            x += 25 * SCALE;
        }
        y += 25 * SCALE;
    }
}

#[test]
fn every_sector_holds_two_planets_and_its_own_label() {
    let borders = borders();
    let worlds = planets();
    for region in &regions() {
        let inside: Vec<_> =
            worlds.iter().filter(|planet| region.contains(planet.position)).map(|planet| planet.name).collect();
        assert_eq!(inside.len(), 2, "sector {} holds {inside:?}", region.name);
        let centre = region.centroid().expect("a sector encloses some area");
        assert!(region.contains(centre), "sector {} label falls outside it", region.name);
    }
    for planet in &worlds {
        assert!(region_of(planet.position).is_some(), "{} is off the map", planet.name);
        assert!(!near_a_border(&borders, planet.position), "{} sits on a border", planet.name);
    }
}

#[test]
fn shared_corners_dedupe_into_one_border_each() {
    let total: usize = regions().iter().map(|region| region.outline.len()).sum();
    let unique = borders().len();
    assert!(unique < total, "{unique} borders from {total} outline edges");
}

#[test]
fn a_sector_label_sits_within_its_bounds() {
    let table = regions();
    // M3 is a quadrilateral; its label sits inside and within its bounds.
    let m3 = &table[7];
    let c = m3.centroid().expect("M3 encloses some area");
    let b = m3.bounds();
    assert!(b.min.x <= c.x && c.x <= b.max.x && b.min.y <= c.y && c.y <= b.max.y);
    assert_eq!(m3.name, "M3");
}

#[test]
fn points_find_their_sector_and_the_border_is_outside_the_map() {
    assert_eq!(region_index(Point::units(100, 100)), Some(0));
    assert_eq!(region_index(Point::units(2900, 1900)), Some(12));
    assert_eq!(region_index(Point::units(-10, 100)), None);
    assert_eq!(region_of(Point::units(1500, 100)).map(|r| r.name), Some("M1"));
}

#[test]
fn a_sector_label_sits_at_its_area_weighted_centre() {
    let table = regions();
    assert_eq!(table[7].centroid(), Some(Point::new(1_710_293_006_110, 1_634_174_376_450)));
    assert_eq!(table[0].centroid(), Some(Point::new(433_680_724_735, 257_988_750_824)));
}
