//! The thirteen sectors of the Farlight Expanse, traced from Alva's sketch: five
//! in the west, three in the middle, five in the east. An odd count means no ties
//! for control of the map. Outlines are authored in layout units and stretch with
//! the world size, so nudging a corner here moves it on the map.
use vstd::prelude::*;

use crate::geometry::{bounded, on_map, Point, SCALE, WORLD_HEIGHT, WORLD_WIDTH};

verus! {

pub const REGION_COUNT: usize = 13;
/// The map size the outlines below were authored against.
pub const LAYOUT_WIDTH: i64 = 3_000_000_000_000;
pub const LAYOUT_HEIGHT: i64 = 2_000_000_000_000;

/// One map sector: a closed polygon. Neighbours share their corner points exactly,
/// so borders dedupe cleanly and the sectors tile the map without gaps.
pub struct Region {
    /// Placeholder code until the sectors are named: L, M, R for west, middle, east.
    pub name: &'static str,
    /// Corners in layout units.
    pub outline: Vec<Point>,
}

/// An axis-aligned box: `min` and `max` corners included.
#[derive(Clone, Copy, Debug, PartialEq, Eq, Structural)]
pub struct Rect {
    pub min: Point,
    pub max: Point,
}

/// The outlines, in layout units.
pub open spec fn region_outline(r: int) -> Seq<Point> {
    if r == 0 {
        seq![Point { x: 0i64, y: 0i64 }, Point { x: 1000000000000i64, y: 0i64 }, Point { x: 1000000000000i64, y: 295000000000i64 }, Point { x: 398000000000i64, y: 530000000000i64 }, Point { x: 0i64, y: 685000000000i64 }]
    } else if r == 1 {
        seq![Point { x: 0i64, y: 685000000000i64 }, Point { x: 398000000000i64, y: 530000000000i64 }, Point { x: 662000000000i64, y: 1082000000000i64 }, Point { x: 330000000000i64, y: 1302000000000i64 }, Point { x: 0i64, y: 1520000000000i64 }]
    } else if r == 2 {
        seq![Point { x: 398000000000i64, y: 530000000000i64 }, Point { x: 1000000000000i64, y: 295000000000i64 }, Point { x: 1000000000000i64, y: 395000000000i64 }, Point { x: 942000000000i64, y: 708000000000i64 }, Point { x: 1322000000000i64, y: 1030000000000i64 }, Point { x: 755000000000i64, y: 1275000000000i64 }, Point { x: 662000000000i64, y: 1082000000000i64 }]
    } else if r == 3 {
        seq![Point { x: 0i64, y: 1520000000000i64 }, Point { x: 330000000000i64, y: 1302000000000i64 }, Point { x: 408000000000i64, y: 1665000000000i64 }, Point { x: 965000000000i64, y: 1555000000000i64 }, Point { x: 1000000000000i64, y: 2000000000000i64 }, Point { x: 0i64, y: 2000000000000i64 }]
    } else if r == 4 {
        seq![Point { x: 662000000000i64, y: 1082000000000i64 }, Point { x: 755000000000i64, y: 1275000000000i64 }, Point { x: 1322000000000i64, y: 1030000000000i64 }, Point { x: 1378000000000i64, y: 1375000000000i64 }, Point { x: 1412000000000i64, y: 2000000000000i64 }, Point { x: 1000000000000i64, y: 2000000000000i64 }, Point { x: 965000000000i64, y: 1555000000000i64 }, Point { x: 408000000000i64, y: 1665000000000i64 }, Point { x: 330000000000i64, y: 1302000000000i64 }]
    } else if r == 5 {
        seq![Point { x: 1000000000000i64, y: 0i64 }, Point { x: 2000000000000i64, y: 0i64 }, Point { x: 2000000000000i64, y: 518000000000i64 }, Point { x: 1545000000000i64, y: 618000000000i64 }, Point { x: 1000000000000i64, y: 395000000000i64 }, Point { x: 1000000000000i64, y: 295000000000i64 }]
    } else if r == 6 {
        seq![Point { x: 1000000000000i64, y: 395000000000i64 }, Point { x: 1545000000000i64, y: 618000000000i64 }, Point { x: 2000000000000i64, y: 518000000000i64 }, Point { x: 2000000000000i64, y: 850000000000i64 }, Point { x: 2000000000000i64, y: 1185000000000i64 }, Point { x: 1378000000000i64, y: 1375000000000i64 }, Point { x: 1322000000000i64, y: 1030000000000i64 }, Point { x: 942000000000i64, y: 708000000000i64 }]
    } else if r == 7 {
        seq![Point { x: 1378000000000i64, y: 1375000000000i64 }, Point { x: 2000000000000i64, y: 1185000000000i64 }, Point { x: 2000000000000i64, y: 2000000000000i64 }, Point { x: 1412000000000i64, y: 2000000000000i64 }]
    } else if r == 8 {
        seq![Point { x: 2000000000000i64, y: 0i64 }, Point { x: 3000000000000i64, y: 0i64 }, Point { x: 3000000000000i64, y: 450000000000i64 }, Point { x: 2572000000000i64, y: 572000000000i64 }]
    } else if r == 9 {
        seq![Point { x: 2000000000000i64, y: 0i64 }, Point { x: 2572000000000i64, y: 572000000000i64 }, Point { x: 3000000000000i64, y: 450000000000i64 }, Point { x: 3000000000000i64, y: 850000000000i64 }, Point { x: 2305000000000i64, y: 850000000000i64 }, Point { x: 2000000000000i64, y: 850000000000i64 }, Point { x: 2000000000000i64, y: 518000000000i64 }]
    } else if r == 10 {
        seq![Point { x: 2000000000000i64, y: 850000000000i64 }, Point { x: 2305000000000i64, y: 850000000000i64 }, Point { x: 2292000000000i64, y: 1165000000000i64 }, Point { x: 2638000000000i64, y: 1160000000000i64 }, Point { x: 2638000000000i64, y: 1610000000000i64 }, Point { x: 2305000000000i64, y: 1575000000000i64 }, Point { x: 2325000000000i64, y: 2000000000000i64 }, Point { x: 2000000000000i64, y: 2000000000000i64 }, Point { x: 2000000000000i64, y: 1185000000000i64 }]
    } else if r == 11 {
        seq![Point { x: 2305000000000i64, y: 850000000000i64 }, Point { x: 3000000000000i64, y: 850000000000i64 }, Point { x: 3000000000000i64, y: 1610000000000i64 }, Point { x: 2638000000000i64, y: 1610000000000i64 }, Point { x: 2638000000000i64, y: 1160000000000i64 }, Point { x: 2292000000000i64, y: 1165000000000i64 }]
    } else {
        seq![Point { x: 2305000000000i64, y: 1575000000000i64 }, Point { x: 2638000000000i64, y: 1610000000000i64 }, Point { x: 3000000000000i64, y: 1610000000000i64 }, Point { x: 3000000000000i64, y: 2000000000000i64 }, Point { x: 2325000000000i64, y: 2000000000000i64 }]
    }
}

pub open spec fn region_name(r: int) -> &'static str {
    if r == 0 {
        "L1"
    } else if r == 1 {
        "L2"
    } else if r == 2 {
        "L3"
    } else if r == 3 {
        "L4"
    } else if r == 4 {
        "L5"
    } else if r == 5 {
        "M1"
    } else if r == 6 {
        "M2"
    } else if r == 7 {
        "M3"
    } else if r == 8 {
        "R1"
    } else if r == 9 {
        "R2"
    } else if r == 10 {
        "R3"
    } else if r == 11 {
        "R4"
    } else {
        "R5"
    }
}

/// A layout point stretched onto the map.
pub open spec fn to_world_spec(p: Point) -> Point {
    Point { x: (p.x * WORLD_WIDTH / (LAYOUT_WIDTH as int)) as i64, y: (p.y * WORLD_HEIGHT / (LAYOUT_HEIGHT as int)) as i64 }
}

pub open spec fn on_layout(p: Point) -> bool {
    0 <= p.x <= LAYOUT_WIDTH && 0 <= p.y <= LAYOUT_HEIGHT
}

/// A region's corners on the map.
pub open spec fn corners_spec(r: int) -> Seq<Point> {
    region_outline(r).map_values(|p: Point| to_world_spec(p))
}

/// Edge `k` of a closed polygon: from corner `k` to the next, wrapping around.
pub open spec fn edge_of(corners: Seq<Point>, k: int) -> (Point, Point) {
    (corners[k], corners[(k + 1) % (corners.len() as int)])
}

/// A ray from `p` to the right crosses the edge from `a` to `b`.
pub open spec fn crosses(a: Point, b: Point, p: Point) -> bool {
    &&& (a.y > p.y) != (b.y > p.y)
    &&& if b.y > a.y {
        (p.x - a.x) * (b.y - a.y) < (p.y - a.y) * (b.x - a.x)
    } else {
        (p.x - a.x) * (b.y - a.y) > (p.y - a.y) * (b.x - a.x)
    }
}

/// How many of the first `k` edges the rightward ray from `p` crosses.
pub open spec fn crossings(corners: Seq<Point>, p: Point, k: nat) -> nat
    decreases k,
{
    if k == 0 {
        0
    } else {
        let e = edge_of(corners, k - 1);
        crossings(corners, p, (k - 1) as nat) + if crosses(e.0, e.1, p) { 1nat } else { 0nat }
    }
}

/// Ray casting: a point is inside when a ray to the right crosses an odd number of edges.
pub open spec fn inside_polygon(corners: Seq<Point>, p: Point) -> bool {
    crossings(corners, p, corners.len()) % 2 == 1
}

pub open spec fn region_contains(r: int, p: Point) -> bool {
    inside_polygon(corners_spec(r), p)
}

/// The first region, in table order, that holds `p`.
pub open spec fn region_index_spec(p: Point) -> Option<usize> {
    if exists|r: int| 0 <= r < REGION_COUNT && region_contains(r, p) {
        let r = choose|r: int| 0 <= r < REGION_COUNT && region_contains(r, p)
            && forall|s: int| 0 <= s < r ==> !region_contains(s, p);
        Some(r as usize)
    } else {
        None
    }
}

pub open spec fn min_x(s: Seq<Point>) -> i64
    decreases s.len(),
{
    if s.len() <= 1 {
        s[0].x
    } else {
        let rest = min_x(s.drop_last());
        if s.last().x < rest { s.last().x } else { rest }
    }
}

pub open spec fn max_x(s: Seq<Point>) -> i64
    decreases s.len(),
{
    if s.len() <= 1 {
        s[0].x
    } else {
        let rest = max_x(s.drop_last());
        if s.last().x > rest { s.last().x } else { rest }
    }
}

pub open spec fn min_y(s: Seq<Point>) -> i64
    decreases s.len(),
{
    if s.len() <= 1 {
        s[0].y
    } else {
        let rest = min_y(s.drop_last());
        if s.last().y < rest { s.last().y } else { rest }
    }
}

pub open spec fn max_y(s: Seq<Point>) -> i64
    decreases s.len(),
{
    if s.len() <= 1 {
        s[0].y
    } else {
        let rest = max_y(s.drop_last());
        if s.last().y > rest { s.last().y } else { rest }
    }
}

/// The corners' bounding box.
pub open spec fn bounds_spec(corners: Seq<Point>) -> Rect {
    Rect {
        min: Point { x: min_x(corners), y: min_y(corners) },
        max: Point { x: max_x(corners), y: max_y(corners) },
    }
}

/// Every outline has at least three corners, each on the layout.
pub proof fn lemma_outlines(r: int)
    requires
        0 <= r < REGION_COUNT,
    ensures
        region_outline(r).len() >= 3,
        region_outline(r).len() <= 9,
        forall|k: int| 0 <= k < region_outline(r).len() ==> on_layout(#[trigger] region_outline(r)[k]),
{
}

/// The layout is authored at map size, so stretching leaves a point where it is.
pub proof fn lemma_to_world_on_map(p: Point)
    requires
        on_layout(p),
    ensures
        to_world_spec(p) == p,
        on_map(to_world_spec(p)),
{
    vstd::arithmetic::div_mod::lemma_div_multiples_vanish(p.x as int, LAYOUT_WIDTH as int);
    vstd::arithmetic::div_mod::lemma_div_multiples_vanish(p.y as int, LAYOUT_HEIGHT as int);
    assert(p.x * WORLD_WIDTH == LAYOUT_WIDTH * p.x) by (nonlinear_arith);
    assert(p.y * WORLD_HEIGHT == LAYOUT_HEIGHT * p.y) by (nonlinear_arith);
}

/// A corner in whole layout units.
pub fn v(x: i64, y: i64) -> (p: Point)
    requires
        0 <= x <= 3000,
        0 <= y <= 2000,
    ensures
        p.x == x * SCALE,
        p.y == y * SCALE,
{
    Point::units(x, y)
}

/// The region table, in order.
pub fn regions() -> (table: Vec<Region>)
    ensures
        table@.len() == REGION_COUNT,
        forall|r: int| 0 <= r < REGION_COUNT ==> (#[trigger] table@[r]).outline@ == region_outline(r)
            && table@[r].name == region_name(r),
{
    let mut table: Vec<Region> = Vec::new();
    table.push(Region { name: "L1", outline: vec![v(0, 0), v(1000, 0), v(1000, 295), v(398, 530), v(0, 685)] });
    table.push(Region { name: "L2", outline: vec![v(0, 685), v(398, 530), v(662, 1082), v(330, 1302), v(0, 1520)] });
    table.push(Region { name: "L3", outline: vec![v(398, 530), v(1000, 295), v(1000, 395), v(942, 708), v(1322, 1030), v(755, 1275), v(662, 1082)] });
    table.push(Region { name: "L4", outline: vec![v(0, 1520), v(330, 1302), v(408, 1665), v(965, 1555), v(1000, 2000), v(0, 2000)] });
    table.push(Region { name: "L5", outline: vec![v(662, 1082), v(755, 1275), v(1322, 1030), v(1378, 1375), v(1412, 2000), v(1000, 2000), v(965, 1555), v(408, 1665), v(330, 1302)] });
    table.push(Region { name: "M1", outline: vec![v(1000, 0), v(2000, 0), v(2000, 518), v(1545, 618), v(1000, 395), v(1000, 295)] });
    table.push(Region { name: "M2", outline: vec![v(1000, 395), v(1545, 618), v(2000, 518), v(2000, 850), v(2000, 1185), v(1378, 1375), v(1322, 1030), v(942, 708)] });
    table.push(Region { name: "M3", outline: vec![v(1378, 1375), v(2000, 1185), v(2000, 2000), v(1412, 2000)] });
    table.push(Region { name: "R1", outline: vec![v(2000, 0), v(3000, 0), v(3000, 450), v(2572, 572)] });
    table.push(Region { name: "R2", outline: vec![v(2000, 0), v(2572, 572), v(3000, 450), v(3000, 850), v(2305, 850), v(2000, 850), v(2000, 518)] });
    table.push(Region { name: "R3", outline: vec![v(2000, 850), v(2305, 850), v(2292, 1165), v(2638, 1160), v(2638, 1610), v(2305, 1575), v(2325, 2000), v(2000, 2000), v(2000, 1185)] });
    table.push(Region { name: "R4", outline: vec![v(2305, 850), v(3000, 850), v(3000, 1610), v(2638, 1610), v(2638, 1160), v(2292, 1165)] });
    table.push(Region { name: "R5", outline: vec![v(2305, 1575), v(2638, 1610), v(3000, 1610), v(3000, 2000), v(2325, 2000)] });
    table
}

fn to_world(point: Point) -> (p: Point)
    requires
        on_layout(point),
    ensures
        p == to_world_spec(point),
        p == point,
{
    proof {
        lemma_to_world_on_map(point);
    }
    let x = (point.x as i128 * WORLD_WIDTH as i128 / LAYOUT_WIDTH as i128) as i64;
    let y = (point.y as i128 * WORLD_HEIGHT as i128 / LAYOUT_HEIGHT as i128) as i64;
    Point { x, y }
}

/// A product of two bounded factors stays bounded.
pub proof fn lemma_mul_bound(a: int, b: int, ma: int, mb: int)
    by (nonlinear_arith)
    requires
        -ma <= a <= ma,
        -mb <= b <= mb,
        0 <= ma,
        0 <= mb,
    ensures
        -(ma * mb) <= a * b <= ma * mb,
{
}

/// A corner in whole world units, rounded down.
pub open spec fn in_units(p: Point) -> (int, int) {
    (p.x as int / SCALE as int, p.y as int / SCALE as int)
}

/// Twice the signed area swept by the first `k` edges, in square units.
pub open spec fn cross_sum(corners: Seq<Point>, k: int) -> int
    decreases k,
{
    if k <= 0 {
        0
    } else {
        let (a, b) = edge_of(corners, k - 1);
        let (ax, ay) = in_units(a);
        let (bx, by) = in_units(b);
        cross_sum(corners, k - 1) + (ax * by - bx * ay)
    }
}

/// The first moments of the first `k` edges' triangles, six times over.
pub open spec fn moment_sum(corners: Seq<Point>, k: int) -> (int, int)
    decreases k,
{
    if k <= 0 {
        (0, 0)
    } else {
        let (a, b) = edge_of(corners, k - 1);
        let (ax, ay) = in_units(a);
        let (bx, by) = in_units(b);
        let cross = ax * by - bx * ay;
        let (mx, my) = moment_sum(corners, k - 1);
        (mx + (ax + bx) * cross, my + (ay + by) * cross)
    }
}

/// The area-weighted centre of a polygon with whole-unit corners, rounded
/// down to a fixed-point step. The outline may run either way round.
pub open spec fn centroid_spec(corners: Seq<Point>) -> Point {
    let area = cross_sum(corners, corners.len() as int);
    let (mx, my) = moment_sum(corners, corners.len() as int);
    let (nx, ny, d) = if area > 0 {
        (mx * SCALE, my * SCALE, 3 * area)
    } else {
        (-(mx * SCALE), -(my * SCALE), -3 * area)
    };
    Point { x: (nx / d) as i64, y: (ny / d) as i64 }
}

/// `n / d` rounded down, for a positive `d`.
fn floor_div(n: i128, d: i128) -> (q: i128)
    requires
        d > 0,
        -0x1000_0000_0000_0000_0000_0000_0000 <= n <= 0x1000_0000_0000_0000_0000_0000_0000,
    ensures
        q == n as int / d as int,
{
    if n >= 0 {
        n / d
    } else {
        let q = (-n) / d;
        let r = (-n) % d;
        proof {
            vstd::arithmetic::div_mod::lemma_fundamental_div_mod(-n as int, d as int);
            if r == 0 {
                assert(n == (-q) * d + 0) by (nonlinear_arith)
                    requires
                        -n == d * q + r,
                        r == 0,
                ;
                vstd::arithmetic::div_mod::lemma_fundamental_div_mod_converse(n as int, d as int, -q as int, 0);
            } else {
                assert(n == (-q - 1) * d + (d - r)) by (nonlinear_arith)
                    requires
                        -n == d * q + r,
                ;
                vstd::arithmetic::div_mod::lemma_fundamental_div_mod_converse(
                    n as int,
                    d as int,
                    -q - 1,
                    d - r as int,
                );
            }
        }
        if r == 0 {
            -q
        } else {
            -q - 1
        }
    }
}

/// An edge with its ends in a fixed order, so an edge shared by two
/// neighbours compares equal whichever way each outline runs.
pub open spec fn normalized(e: (Point, Point)) -> (Point, Point) {
    if e.0.x < e.1.x || (e.0.x == e.1.x && e.0.y <= e.1.y) {
        e
    } else {
        (e.1, e.0)
    }
}

/// Edge `k` of region `r`, ends ordered.
pub open spec fn region_edge(r: int, k: int) -> (Point, Point) {
    normalized(edge_of(corners_spec(r), k))
}

/// Every border of every region, each once.
pub open spec fn border_set() -> Set<(Point, Point)> {
    Set::new(|e: (Point, Point)| exists|r: int, k: int|
        0 <= r < REGION_COUNT && 0 <= k < corners_spec(r).len() && #[trigger] region_edge(r, k) == e)
}

impl Region {
    /// A closed polygon with its corners on the layout.
    pub open spec fn wf(&self) -> bool {
        &&& 3 <= self.outline@.len() <= 1000
        &&& forall|k: int| 0 <= k < self.outline@.len() ==> on_layout(#[trigger] self.outline@[k])
    }

    /// Corners on the map.
    pub open spec fn corners_view(&self) -> Seq<Point> {
        self.outline@.map_values(|p: Point| to_world_spec(p))
    }

    pub fn corners(&self) -> (corners: Vec<Point>)
        requires
            self.wf(),
        ensures
            corners@ == self.corners_view(),
            forall|k: int| 0 <= k < corners@.len() ==> on_map(#[trigger] corners@[k]),
    {
        let mut corners: Vec<Point> = Vec::new();
        let mut k: usize = 0;
        while k < self.outline.len()
            invariant
                self.wf(),
                k <= self.outline@.len(),
                corners@ == self.corners_view().take(k as int),
                forall|j: int| 0 <= j < corners@.len() ==> on_map(#[trigger] corners@[j]),
            decreases self.outline@.len() - k,
        {
            proof {
                lemma_to_world_on_map(self.outline@[k as int]);
            }
            corners.push(to_world(self.outline[k]));
            k += 1;
            assert(corners@ =~= self.corners_view().take(k as int));
        }
        assert(corners@ =~= self.corners_view());
        corners
    }

    pub fn edges(&self) -> (edges: Vec<(Point, Point)>)
        requires
            self.wf(),
        ensures
            edges@.len() == self.corners_view().len(),
            forall|k: int| 0 <= k < edges@.len() ==> #[trigger] edges@[k] == edge_of(self.corners_view(), k),
            forall|k: int| 0 <= k < edges@.len() ==> on_map((#[trigger] edges@[k]).0) && on_map(edges@[k].1),
    {
        let corners = self.corners();
        let n = corners.len();
        let mut edges: Vec<(Point, Point)> = Vec::new();
        let mut i: usize = 0;
        while i < n
            invariant
                n == corners@.len(),
                corners@ == self.corners_view(),
                3 <= n,
                forall|k: int| 0 <= k < n ==> on_map(#[trigger] corners@[k]),
                i <= n,
                edges@.len() == i,
                forall|k: int| 0 <= k < i ==> #[trigger] edges@[k] == edge_of(corners@, k),
            decreases n - i,
        {
            let next = if i + 1 < n { i + 1 } else { 0 };
            proof {
                if i + 1 < n {
                    vstd::arithmetic::div_mod::lemma_small_mod((i + 1) as nat, n as nat);
                } else {
                    vstd::arithmetic::div_mod::lemma_mod_self_0(n as int);
                }
            }
            assert(next as int == (i as int + 1) % (n as int));
            edges.push((corners[i], corners[next]));
            i += 1;
        }
        edges
    }

    /// Ray casting: a point is inside when a ray to the right crosses an odd number of edges.
    pub fn contains(&self, point: Point) -> (inside: bool)
        requires
            self.wf(),
            bounded(point),
        ensures
            inside == inside_polygon(self.corners_view(), point),
    {
        let edges = self.edges();
        let mut inside = false;
        let mut k: usize = 0;
        while k < edges.len()
            invariant
                bounded(point),
                edges@.len() == self.corners_view().len(),
                forall|j: int| 0 <= j < edges@.len() ==> #[trigger] edges@[j] == edge_of(self.corners_view(), j),
                forall|j: int| 0 <= j < edges@.len() ==> on_map((#[trigger] edges@[j]).0) && on_map(edges@[j].1),
                k <= edges@.len(),
                inside == (crossings(self.corners_view(), point, k as nat) % 2 == 1),
            decreases edges@.len() - k,
        {
            let (a, b) = edges[k];
            assert(edges@[k as int] == edge_of(self.corners_view(), k as int));
            if (a.y > point.y) != (b.y > point.y) {
                let dx: i128 = point.x as i128 - a.x as i128;
                let dy: i128 = point.y as i128 - a.y as i128;
                let ex: i128 = b.x as i128 - a.x as i128;
                let ey: i128 = b.y as i128 - a.y as i128;
                proof {
                    lemma_mul_bound(dx as int, ey as int, 0x2000_0000_0000_0000, 0x2000_0000_0000_0000);
                    lemma_mul_bound(dy as int, ex as int, 0x2000_0000_0000_0000, 0x2000_0000_0000_0000);
                }
                let lhs = dx * ey;
                let rhs = dy * ex;
                let crossed = if b.y > a.y { lhs < rhs } else { lhs > rhs };
                if crossed {
                    inside = !inside;
                }
            }
            k += 1;
        }
        inside
    }

    /// Area-weighted centre: where the sector's label sits. An outline that
    /// encloses no area has none.
    pub fn centroid(&self) -> (center: Option<Point>)
        requires
            self.wf(),
        ensures
            cross_sum(self.corners_view(), self.corners_view().len() as int) == 0 ==> center is None,
            cross_sum(self.corners_view(), self.corners_view().len() as int) != 0 ==> center == Some(
                centroid_spec(self.corners_view()),
            ),
    {
        let edges = self.edges();
        let ghost corners = self.corners_view();
        let mut area: i128 = 0;
        let mut mx: i128 = 0;
        let mut my: i128 = 0;
        let mut k: usize = 0;
        while k < edges.len()
            invariant
                edges@.len() == corners.len(),
                corners.len() <= 1000,
                forall|j: int| 0 <= j < edges@.len() ==> #[trigger] edges@[j] == edge_of(corners, j),
                forall|j: int| 0 <= j < edges@.len() ==> on_map((#[trigger] edges@[j]).0) && on_map(edges@[j].1),
                k <= edges@.len(),
                area == cross_sum(corners, k as int),
                (mx as int, my as int) == moment_sum(corners, k as int),
                -18_000_000 * k <= area <= 18_000_000 * k,
                -108_000_000_000 * k <= mx <= 108_000_000_000 * k,
                -108_000_000_000 * k <= my <= 108_000_000_000 * k,
            decreases edges@.len() - k,
        {
            let (a, b) = edges[k];
            assert(edges@[k as int] == edge_of(corners, k as int));
            let ax = a.x as i128 / SCALE as i128;
            let ay = a.y as i128 / SCALE as i128;
            let bx = b.x as i128 / SCALE as i128;
            let by = b.y as i128 / SCALE as i128;
            assert(0 <= ax <= 3000 && 0 <= bx <= 3000 && 0 <= ay <= 2000 && 0 <= by <= 2000) by {
                vstd::arithmetic::div_mod::lemma_div_is_ordered(a.x as int, WORLD_WIDTH as int, SCALE as int);
                vstd::arithmetic::div_mod::lemma_div_is_ordered(b.x as int, WORLD_WIDTH as int, SCALE as int);
                vstd::arithmetic::div_mod::lemma_div_is_ordered(a.y as int, WORLD_HEIGHT as int, SCALE as int);
                vstd::arithmetic::div_mod::lemma_div_is_ordered(b.y as int, WORLD_HEIGHT as int, SCALE as int);
                vstd::arithmetic::div_mod::lemma_div_pos_is_pos(a.x as int, SCALE as int);
                vstd::arithmetic::div_mod::lemma_div_pos_is_pos(b.x as int, SCALE as int);
                vstd::arithmetic::div_mod::lemma_div_pos_is_pos(a.y as int, SCALE as int);
                vstd::arithmetic::div_mod::lemma_div_pos_is_pos(b.y as int, SCALE as int);
            }
            assert(0 <= ax * by <= 6_000_000 && 0 <= bx * ay <= 6_000_000) by (nonlinear_arith)
                requires
                    0 <= ax <= 3000,
                    0 <= bx <= 3000,
                    0 <= ay <= 2000,
                    0 <= by <= 2000,
            ;
            let cross = ax * by - bx * ay;
            assert(-54_000_000_000 <= (ax + bx) * cross <= 54_000_000_000) by (nonlinear_arith)
                requires
                    0 <= ax + bx <= 6000,
                    -9_000_000 <= cross <= 9_000_000,
            ;
            assert(-36_000_000_000 <= (ay + by) * cross <= 36_000_000_000) by (nonlinear_arith)
                requires
                    0 <= ay + by <= 4000,
                    -9_000_000 <= cross <= 9_000_000,
            ;
            area = area + cross;
            mx = mx + (ax + bx) * cross;
            my = my + (ay + by) * cross;
            k += 1;
        }
        assert(-18_000_000 * 1000 <= area <= 18_000_000 * 1000 && -108_000_000_000 * 1000 <= mx
            <= 108_000_000_000 * 1000 && -108_000_000_000 * 1000 <= my <= 108_000_000_000 * 1000) by (nonlinear_arith)
            requires
                k <= 1000,
                -18_000_000 * k <= area <= 18_000_000 * k,
                -108_000_000_000 * k <= mx <= 108_000_000_000 * k,
                -108_000_000_000 * k <= my <= 108_000_000_000 * k,
        ;
        assert(-108_000_000_000 * 1000 * SCALE <= mx * SCALE <= 108_000_000_000 * 1000 * SCALE) by (nonlinear_arith)
            requires
                -108_000_000_000 * 1000 <= mx <= 108_000_000_000 * 1000,
        ;
        assert(-108_000_000_000 * 1000 * SCALE <= my * SCALE <= 108_000_000_000 * 1000 * SCALE) by (nonlinear_arith)
            requires
                -108_000_000_000 * 1000 <= my <= 108_000_000_000 * 1000,
        ;
        assert(k == corners.len());
        if area == 0 {
            return None;
        }
        assert(-18_000_000_000 <= area <= 18_000_000_000);
        let three_area: i128 = 3 * area;
        let scaled_x: i128 = mx * SCALE as i128;
        let scaled_y: i128 = my * SCALE as i128;
        let (nx, ny, d) = if area > 0 {
            (scaled_x, scaled_y, three_area)
        } else {
            (-scaled_x, -scaled_y, -three_area)
        };
        let x = floor_div(nx, d);
        let y = floor_div(ny, d);
        Some(Point { x: #[verifier::truncate] (x as i64), y: #[verifier::truncate] (y as i64) })
    }

    /// The corners' bounding box, for sampling points inside the sector.
    pub fn bounds(&self) -> (bounds: Rect)
        requires
            self.wf(),
        ensures
            bounds == bounds_spec(self.corners_view()),
            on_map(bounds.min),
            on_map(bounds.max),
            bounds.min.x <= bounds.max.x,
            bounds.min.y <= bounds.max.y,
    {
        let corners = self.corners();
        let mut bounds = Rect { min: corners[0], max: corners[0] };
        let mut k: usize = 1;
        assert(corners@.take(1).drop_last() =~= Seq::<Point>::empty());
        while k < corners.len()
            invariant
                corners@ == self.corners_view(),
                forall|j: int| 0 <= j < corners@.len() ==> on_map(#[trigger] corners@[j]),
                1 <= k <= corners@.len(),
                bounds == bounds_spec(corners@.take(k as int)),
                on_map(bounds.min),
                on_map(bounds.max),
                bounds.min.x <= bounds.max.x,
                bounds.min.y <= bounds.max.y,
            decreases corners@.len() - k,
        {
            let c = corners[k];
            if c.x < bounds.min.x {
                bounds.min.x = c.x;
            }
            if c.y < bounds.min.y {
                bounds.min.y = c.y;
            }
            if c.x > bounds.max.x {
                bounds.max.x = c.x;
            }
            if c.y > bounds.max.y {
                bounds.max.y = c.y;
            }
            assert(corners@.take(k + 1).drop_last() =~= corners@.take(k as int));
            k += 1;
        }
        assert(corners@.take(corners@.len() as int) =~= corners@);
        bounds
    }
}

/// Every region in the table is a closed polygon on the layout.
pub proof fn lemma_regions_wf(table: Seq<Region>)
    requires
        table.len() == REGION_COUNT,
        forall|r: int| 0 <= r < REGION_COUNT ==> (#[trigger] table[r]).outline@ == region_outline(r),
    ensures
        forall|r: int| 0 <= r < REGION_COUNT ==> (#[trigger] table[r]).wf() && table[r].corners_view()
            == corners_spec(r),
{
    assert forall|r: int| 0 <= r < REGION_COUNT implies (#[trigger] table[r]).wf() && table[r].corners_view()
        == corners_spec(r) by {
        lemma_outlines(r);
    }
}

/// The first region, in table order, that holds `point`.
pub fn region_index(point: Point) -> (index: Option<usize>)
    requires
        bounded(point),
    ensures
        index == region_index_spec(point),
        index matches Some(r) ==> r < REGION_COUNT && region_contains(r as int, point),
        index is None ==> forall|r: int| 0 <= r < REGION_COUNT ==> !region_contains(r, point),
{
    let table = regions();
    proof {
        lemma_regions_wf(table@);
    }
    let mut r: usize = 0;
    while r < table.len()
        invariant
            bounded(point),
            table@.len() == REGION_COUNT,
            forall|i: int| 0 <= i < REGION_COUNT ==> (#[trigger] table@[i]).wf() && table@[i].corners_view()
                == corners_spec(i),
            r <= REGION_COUNT,
            forall|s: int| 0 <= s < r ==> !region_contains(s, point),
        decreases REGION_COUNT - r,
    {
        if table[r].contains(point) {
            let ghost found = r as int;
            assert(region_contains(found, point));
            proof {
                let c = choose|c: int| 0 <= c < REGION_COUNT && region_contains(c, point)
                    && forall|s: int| 0 <= s < c ==> !region_contains(s, point);
                if c < found {
                } else if c > found {
                    assert(!region_contains(found, point));
                }
            }
            return Some(r);
        }
        r += 1;
    }
    None
}

/// The region that holds `point`, if any.
pub fn region_of(point: Point) -> (region: Option<Region>)
    requires
        bounded(point),
    ensures
        region_index_spec(point) matches Some(r) ==> region matches Some(found) && found.outline@
            == region_outline(r as int) && found.name == region_name(r as int),
        region_index_spec(point) is None ==> region is None,
{
    match region_index(point) {
        Some(r) => {
            let mut table = regions();
            Some(table.swap_remove(r))
        },
        None => None,
    }
}

/// Every border once, in world units, even where two sectors share it.
pub fn borders() -> (borders: Vec<(Point, Point)>)
    ensures
        borders@.no_duplicates(),
        borders@.to_set() == border_set(),
{
    let table = regions();
    proof {
        lemma_regions_wf(table@);
    }
    let mut borders: Vec<(Point, Point)> = Vec::new();
    // Where each border came from: a region and one of its edges.
    let ghost mut origin: Seq<(int, int)> = Seq::empty();
    let mut r: usize = 0;
    while r < table.len()
        invariant
            table@.len() == REGION_COUNT,
            forall|i: int| 0 <= i < REGION_COUNT ==> (#[trigger] table@[i]).wf() && table@[i].corners_view()
                == corners_spec(i),
            r <= REGION_COUNT,
            borders@.no_duplicates(),
            origin.len() == borders@.len(),
            forall|i: int| 0 <= i < borders@.len() ==> {
                let (s, k) = #[trigger] origin[i];
                0 <= s < r && 0 <= k < corners_spec(s).len() && region_edge(s, k) == borders@[i]
            },
            forall|s: int, k: int| 0 <= s < r && 0 <= k < corners_spec(s).len() ==> borders@.contains(
                #[trigger] region_edge(s, k)),
        decreases REGION_COUNT - r,
    {
        let edges = table[r].edges();
        let mut k: usize = 0;
        while k < edges.len()
            invariant
                table@.len() == REGION_COUNT,
                forall|i: int| 0 <= i < REGION_COUNT ==> (#[trigger] table@[i]).wf() && table@[i].corners_view()
                    == corners_spec(i),
                r < REGION_COUNT,
                edges@.len() == corners_spec(r as int).len(),
                forall|j: int| 0 <= j < edges@.len() ==> #[trigger] edges@[j] == edge_of(corners_spec(r as int), j),
                k <= edges@.len(),
                borders@.no_duplicates(),
                origin.len() == borders@.len(),
                forall|i: int| 0 <= i < borders@.len() ==> {
                    let (s, j) = #[trigger] origin[i];
                    0 <= s <= r && 0 <= j < corners_spec(s).len() && (s < r || j < k) && region_edge(s, j)
                        == borders@[i]
                },
                forall|s: int, j: int| 0 <= s <= r && 0 <= j < corners_spec(s).len() && (s < r || j < k)
                    ==> borders@.contains(#[trigger] region_edge(s, j)),
            decreases edges@.len() - k,
        {
            let (a, b) = edges[k];
            let edge = if a.x < b.x || (a.x == b.x && a.y <= b.y) { (a, b) } else { (b, a) };
            assert(edge == region_edge(r as int, k as int));
            let mut seen = false;
            let mut i: usize = 0;
            while i < borders.len()
                invariant
                    i <= borders@.len(),
                    seen == exists|j: int| 0 <= j < i && borders@[j] == edge,
                decreases borders@.len() - i,
            {
                if borders[i].0 == edge.0 && borders[i].1 == edge.1 {
                    seen = true;
                }
                i += 1;
            }
            if !seen {
                let ghost before = borders@;
                borders.push(edge);
                proof {
                    origin = origin.push((r as int, k as int));
                    assert forall|x: int, y: int| 0 <= x < borders@.len() && 0 <= y < borders@.len() && x != y
                        implies borders@[x] != borders@[y] by {
                        if x < before.len() && y < before.len() {
                        } else if x == before.len() {
                            assert(borders@[y] == before[y]);
                        } else {
                            assert(borders@[x] == before[x]);
                        }
                    }
                    assert forall|s: int, j: int| 0 <= s <= r && 0 <= j < corners_spec(s).len() && (s < r || j
                        < k + 1) implies borders@.contains(#[trigger] region_edge(s, j)) by {
                        if s < r || j < k {
                            assert(before.contains(region_edge(s, j)));
                            let w = choose|w: int| 0 <= w < before.len() && before[w] == region_edge(s, j);
                            assert(borders@[w] == region_edge(s, j));
                        } else {
                            assert(borders@[before.len() as int] == region_edge(s, j));
                        }
                    }
                }
            } else {
                proof {
                    let w = choose|w: int| 0 <= w < borders@.len() && borders@[w] == edge;
                    assert forall|s: int, j: int| 0 <= s <= r && 0 <= j < corners_spec(s).len() && (s < r || j
                        < k + 1) implies borders@.contains(#[trigger] region_edge(s, j)) by {
                        if s < r || j < k {
                        } else {
                            assert(borders@[w] == region_edge(s, j));
                        }
                    }
                }
            }
            k += 1;
        }
        r += 1;
    }
    assert(borders@.to_set() =~= border_set()) by {
        assert forall|e: (Point, Point)| border_set().contains(e) implies borders@.to_set().contains(e) by {
            let (s, j) = choose|s: int, j: int| 0 <= s < REGION_COUNT && 0 <= j < corners_spec(s).len()
                && #[trigger] region_edge(s, j) == e;
            assert(borders@.contains(region_edge(s, j)));
        }
        assert forall|e: (Point, Point)| borders@.to_set().contains(e) implies border_set().contains(e) by {
            let w = choose|w: int| 0 <= w < borders@.len() && borders@[w] == e;
            let (s, j) = origin[w];
            assert(region_edge(s, j) == e);
        }
    }
    borders
}

} // verus!
