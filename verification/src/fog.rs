//! What the player has charted. Planet positions are known from the start; fog
//! hides what is there. Explored cells stay known, and what is lit right now comes
//! from the fleets and worlds that can see it.
use vstd::prelude::*;

use crate::geometry::{along, bounded, distance, part_along, within, within_spec, Point, COORD_LIMIT};

verus! {

/// World units per fog cell, ten of them. Edges soften over one cell on screen.
pub const CELL: i64 = 10_000_000_000;
pub const COLUMNS: usize = 300;
pub const ROWS: usize = 200;
/// Every cell of the chart.
pub const CELLS: usize = 60_000;

pub open spec fn col_of(i: int) -> int {
    i % (COLUMNS as int)
}

pub open spec fn row_of(i: int) -> int {
    i / (COLUMNS as int)
}

/// The centre of the cell in `column` and `row`.
pub open spec fn middle_spec(column: int, row: int) -> Point {
    Point { x: (column * CELL + CELL / 2) as i64, y: (row * CELL + CELL / 2) as i64 }
}

/// The centre of cell `i`, counted row by row.
pub open spec fn cell_middle(i: int) -> Point {
    middle_spec(col_of(i), row_of(i))
}

/// The chart after charting every cell whose centre lies within `radius` of `center`.
pub open spec fn revealed(explored: Seq<bool>, center: Point, radius: int) -> Seq<bool> {
    Seq::new(explored.len(), |i: int| explored[i] || within_spec(cell_middle(i), center, radius))
}

/// Point `k` of `steps` evenly spaced along the way from `from` to `to`, both ends included.
pub open spec fn path_point(from: Point, to: Point, k: int, steps: int) -> Point {
    Point { x: (from.x + along(to.x - from.x, k, steps)) as i64, y: (from.y + along(to.y - from.y, k, steps)) as i64 }
}

/// How many stops a ship charts from along an order: one per two cells flown.
pub open spec fn path_steps(from: Point, to: Point, length: int) -> int {
    let stops = (length + 2 * CELL - 1) / (2 * CELL);
    if stops < 1 { 1 } else { stops }
}

/// The chart after charting around each of the first `upto` stops along a path.
pub open spec fn path_revealed(explored: Seq<bool>, from: Point, to: Point, steps: int, radius: int, upto: int) -> Seq<bool> {
    Seq::new(explored.len(), |i: int| explored[i] || exists|k: int| 0 <= k < upto && within_spec(cell_middle(i),
        #[trigger] path_point(from, to, k, steps), radius))
}

/// Cell `i` lies in view of one of `sources`.
pub open spec fn lit_by(sources: Seq<(Point, i64)>, i: int) -> bool {
    exists|s: int| 0 <= s < sources.len() && within_spec(cell_middle(i), #[trigger] sources[s].0, sources[s].1 as int)
}

/// The cell holding `point`, if it is on the chart.
pub open spec fn cell_spec(point: Point) -> Option<usize> {
    if point.x < 0 || point.y < 0 {
        None
    } else {
        let column = point.x as int / CELL as int;
        let row = point.y as int / CELL as int;
        if column < COLUMNS && row < ROWS {
            Some((row * COLUMNS + column) as usize)
        } else {
            None
        }
    }
}

/// What a counter of versions holds after handing out `counter`: the next number,
/// wrapping around.
pub open spec fn next_version_spec(counter: u64) -> u64 {
    if counter == u64::MAX { 0 } else { (counter + 1) as u64 }
}

/// Hands out a fresh version from `counter` and advances it. While the counter
/// does not wrap, every later call returns a larger number than this one.
pub fn next_version(counter: &mut u64) -> (version: u64)
    ensures
        version == *old(counter),
        *final(counter) == next_version_spec(*old(counter)),
{
    let version = *counter;
    *counter = version.wrapping_add(1);
    version
}

/// The counter after handing out `n` versions from `counter`; the `n`-th
/// version handed out, counting from zero, is what it held before that call.
pub open spec fn counter_after(counter: u64, n: nat) -> u64
    decreases n,
{
    if n == 0 {
        counter
    } else {
        next_version_spec(counter_after(counter, (n - 1) as nat))
    }
}

proof fn lemma_counter_after(counter: u64, n: nat)
    ensures
        counter_after(counter, n) == (counter + n) % 0x1_0000_0000_0000_0000,
    decreases n,
{
    let m: int = 0x1_0000_0000_0000_0000;
    if n == 0 {
        vstd::arithmetic::div_mod::lemma_small_mod(counter as nat, m as nat);
    } else {
        lemma_counter_after(counter, (n - 1) as nat);
        let x: int = counter + n - 1;
        vstd::arithmetic::div_mod::lemma_fundamental_div_mod(x, m);
        vstd::arithmetic::div_mod::lemma_mod_pos_bound(x, m);
        let q = x / m;
        let r = x % m;
        assert(x == q * m + r) by (nonlinear_arith)
            requires
                x == m * (x / m) + x % m,
                q == x / m,
                r == x % m,
        ;
        if r + 1 < m {
            vstd::arithmetic::div_mod::lemma_fundamental_div_mod_converse(x + 1, m, q, r + 1);
        } else {
            assert(x + 1 == (q + 1) * m + 0) by (nonlinear_arith)
                requires
                    x == q * m + r,
                    r + 1 == m,
            ;
            vstd::arithmetic::div_mod::lemma_fundamental_div_mod_converse(x + 1, m, q + 1, 0);
        }
    }
}

/// Versions handed out one after another from one counter never repeat
/// until the counter has gone all the way round: the `i`-th and the `j`-th
/// differ.
pub proof fn law_versions_never_repeat(counter: u64, i: nat, j: nat)
    requires
        i < j < 0x1_0000_0000_0000_0000,
    ensures
        counter_after(counter, i) != counter_after(counter, j),
{
    let m: int = 0x1_0000_0000_0000_0000;
    lemma_counter_after(counter, i);
    lemma_counter_after(counter, j);
    let a: int = counter + i;
    let b: int = counter + j;
    if a < m {
        vstd::arithmetic::div_mod::lemma_fundamental_div_mod_converse(a, m, 0, a);
    } else {
        vstd::arithmetic::div_mod::lemma_fundamental_div_mod_converse(a, m, 1, a - m);
    }
    if b < m {
        vstd::arithmetic::div_mod::lemma_fundamental_div_mod_converse(b, m, 0, b);
    } else {
        vstd::arithmetic::div_mod::lemma_fundamental_div_mod_converse(b, m, 1, b - m);
    }
}

pub proof fn lemma_index(row: int, column: int)
    requires
        0 <= row,
        0 <= column < COLUMNS,
    ensures
        row_of(row * COLUMNS + column) == row,
        col_of(row * COLUMNS + column) == column,
{
    vstd::arithmetic::div_mod::lemma_fundamental_div_mod_converse(row * COLUMNS + column, COLUMNS as int, row, column);
}

pub proof fn lemma_cell_bounds(i: int)
    requires
        0 <= i < CELLS,
    ensures
        0 <= row_of(i) < ROWS,
        0 <= col_of(i) < COLUMNS,
        i == row_of(i) * COLUMNS + col_of(i),
{
    vstd::arithmetic::div_mod::lemma_fundamental_div_mod(i, COLUMNS as int);
    vstd::arithmetic::div_mod::lemma_mod_bound(i, COLUMNS as int);
    vstd::arithmetic::div_mod::lemma_div_pos_is_pos(i, COLUMNS as int);
    vstd::arithmetic::div_mod::lemma_div_is_ordered(i, CELLS as int, COLUMNS as int);
    assert(CELLS as int / COLUMNS as int == ROWS);
}

/// A centre further than `radius` along either axis is out of reach.
pub proof fn lemma_far_on_an_axis(a: Point, b: Point, radius: int)
    requires
        radius >= 0,
        a.x - b.x > radius || b.x - a.x > radius || a.y - b.y > radius || b.y - a.y > radius,
    ensures
        !within_spec(a, b, radius),
{
    let dx = a.x - b.x;
    let dy = a.y - b.y;
    assert(dx * dx >= 0 && dy * dy >= 0) by (nonlinear_arith);
    if dx > radius || -dx > radius {
        assert(dx * dx > radius * radius) by (nonlinear_arith)
            requires
                dx > radius || -dx > radius,
                radius >= 0,
        ;
    } else {
        assert(dy * dy > radius * radius) by (nonlinear_arith)
            requires
                dy > radius || -dy > radius,
                radius >= 0,
        ;
    }
}

/// The first cell of the span that can reach down to `low`.
pub open spec fn span_first(low: int, limit: int) -> int {
    if low <= 0 {
        0
    } else if low / CELL as int > limit {
        limit
    } else {
        low / CELL as int
    }
}

/// One past the last cell of the span that can reach up to `high`.
pub open spec fn span_last(high: int, limit: int) -> int {
    if high <= 0 {
        0
    } else if (high + CELL - 1) / CELL as int > limit {
        limit
    } else {
        (high + CELL - 1) / CELL as int
    }
}

/// Cells outside `span_first(c - r) .. span_last(c + r)` along an axis have
/// their centres more than `r` from `c`.
pub proof fn lemma_span(n: int, c: int, r: int, limit: int)
    requires
        0 <= n < limit,
        r >= 0,
        n < span_first(c - r, limit) || n >= span_last(c + r, limit),
    ensures
        n * CELL + CELL / 2 < c - r || n * CELL + CELL / 2 > c + r,
{
    let m = n * CELL + CELL / 2;
    if n < span_first(c - r, limit) {
        let low = c - r;
        vstd::arithmetic::div_mod::lemma_fundamental_div_mod(low, CELL as int);
        vstd::arithmetic::div_mod::lemma_mod_bound(low, CELL as int);
        assert(n + 1 <= low / CELL as int);
        assert((n + 1) * CELL <= (low / CELL as int) * CELL) by (nonlinear_arith)
            requires
                n + 1 <= low / CELL as int,
        ;
    } else {
        let high = c + r;
        if high <= 0 {
        } else {
            let q = (high + CELL - 1) / CELL as int;
            vstd::arithmetic::div_mod::lemma_fundamental_div_mod(high + CELL - 1, CELL as int);
            vstd::arithmetic::div_mod::lemma_mod_bound(high + CELL - 1, CELL as int);
            assert(n >= q);
            assert(n * CELL >= q * CELL) by (nonlinear_arith)
                requires
                    n >= q,
            ;
        }
    }
}

/// A ship charts from where it started to where it stopped: every cell in
/// sight of either end of the path is charted, and nothing charted is lost.
pub proof fn law_a_path_charts_both_ends(explored: Seq<bool>, from: Point, to: Point, steps: int, radius: int, i: int)
    requires
        0 < steps,
        0 <= i < explored.len(),
    ensures
        within_spec(cell_middle(i), from, radius) ==> path_revealed(explored, from, to, steps, radius, steps + 1)[i],
        within_spec(cell_middle(i), to, radius) ==> path_revealed(explored, from, to, steps, radius, steps + 1)[i],
        explored[i] ==> path_revealed(explored, from, to, steps, radius, steps + 1)[i],
{
    assert(along(to.x - from.x, 0, steps) == 0);
    assert(along(to.y - from.y, 0, steps) == 0);
    assert(path_point(from, to, 0, steps) == from);
    let mx = if to.x - from.x >= 0 { to.x - from.x } else { from.x - to.x };
    let my = if to.y - from.y >= 0 { to.y - from.y } else { from.y - to.y };
    vstd::arithmetic::div_mod::lemma_div_multiples_vanish(mx as int, steps);
    vstd::arithmetic::div_mod::lemma_div_multiples_vanish(my as int, steps);
    assert(mx * steps == steps * mx) by (nonlinear_arith);
    assert(my * steps == steps * my) by (nonlinear_arith);
    assert(path_point(from, to, steps, steps) == to);
}

/// Charting a disc never loses a charted cell.
/// Revealing a disc charts exactly the cells whose centres lie within `radius`
/// of `center` (the circle included), on top of what was charted before.
pub proof fn law_reveal_charts_exactly_the_disc(explored: Seq<bool>, center: Point, radius: int, i: int)
    requires
        0 <= i < explored.len(),
    ensures
        revealed(explored, center, radius).len() == explored.len(),
        revealed(explored, center, radius)[i] == (explored[i] || (radius >= 0 && (cell_middle(i).x - center.x) * (
        cell_middle(i).x - center.x) + (cell_middle(i).y - center.y) * (cell_middle(i).y - center.y) <= radius
            * radius)),
{
}

pub proof fn law_reveal_never_forgets(explored: Seq<bool>, center: Point, radius: int, i: int)
    requires
        0 <= i < explored.len(),
        explored[i],
    ensures
        revealed(explored, center, radius)[i],
{
}

#[derive(Clone, Debug, PartialEq, Eq)]
pub struct Fog {
    explored: Vec<bool>,
    /// Changes whenever knowledge or lighting changes; the renderer re-uploads then.
    version: u64,
}

impl Fog {
    /// Which cells are charted, row by row.
    pub closed spec fn chart(&self) -> Seq<bool> {
        self.explored@
    }

    pub closed spec fn version_spec(&self) -> u64 {
        self.version
    }

    /// One flag for every cell.
    pub open spec fn wf(&self) -> bool {
        self.chart().len() == CELLS
    }

    /// A blank chart, under the fresh `version` it is given.
    pub fn new(version: u64) -> (fog: Fog)
        ensures
            fog.wf(),
            forall|i: int| 0 <= i < CELLS ==> !#[trigger] fog.chart()[i],
            fog.version_spec() == version,
    {
        let explored = vec![false; CELLS];
        Fog { explored, version }
    }

    pub fn version(&self) -> (version: u64)
        ensures
            version == self.version_spec(),
    {
        self.version
    }

    /// Note that what is in view changed, even if nothing new was charted: the
    /// chart takes the fresh `version` it is given.
    pub fn touch(&mut self, version: u64)
        ensures
            final(self).chart() == old(self).chart(),
            final(self).version_spec() == version,
    {
        self.version = version;
    }

    fn cell(point: Point) -> (index: Option<usize>)
        ensures
            index == cell_spec(point),
            index matches Some(i) ==> i < CELLS,
    {
        if point.x < 0 || point.y < 0 {
            return None;
        }
        let column = point.x / CELL;
        let row = point.y / CELL;
        if (column as u64) < (COLUMNS as u64) && (row as u64) < (ROWS as u64) {
            let index = row as usize * COLUMNS + column as usize;
            proof {
                lemma_index(row as int, column as int);
                assert(index < CELLS) by (nonlinear_arith)
                    requires
                        index == row * COLUMNS + column,
                        0 <= row < ROWS,
                        0 <= column < COLUMNS,
                ;
            }
            Some(index)
        } else {
            None
        }
    }

    pub fn explored_at(&self, point: Point) -> (charted: bool)
        requires
            self.wf(),
        ensures
            charted == (cell_spec(point) matches Some(i) && self.chart()[i as int]),
    {
        match Self::cell(point) {
            Some(index) => self.explored[index],
            None => false,
        }
    }

    fn middle(column: usize, row: usize) -> (m: Point)
        requires
            column < COLUMNS,
            row < ROWS,
        ensures
            m == middle_spec(column as int, row as int),
            bounded(m),
    {
        Point { x: column as i64 * CELL + CELL / 2, y: row as i64 * CELL + CELL / 2 }
    }

    /// Chart every cell whose centre lies within `radius` of `center`.
    pub fn reveal_disc(&mut self, center: Point, radius: i64)
        requires
            old(self).wf(),
            bounded(center),
        ensures
            final(self).wf(),
            final(self).chart() == revealed(old(self).chart(), center, radius as int),
            final(self).version_spec() == old(self).version_spec(),
    {
        let ghost start = self.explored@;
        if radius < 0 {
            assert(self.explored@ =~= revealed(start, center, radius as int));
            return;
        }
        let cx = center.x as i128;
        let cy = center.y as i128;
        let r = radius as i128;
        let first_row = Self::span_start(cy - r, ROWS);
        let last_row = Self::span_end(cy + r, ROWS);
        let first_column = Self::span_start(cx - r, COLUMNS);
        let last_column = Self::span_end(cx + r, COLUMNS);
        let mut row = first_row;
        proof {
            assert forall|i: int| 0 <= i < CELLS && row_of(i) < first_row implies !within_spec(
                #[trigger] cell_middle(i), center, radius as int) by {
                lemma_cell_bounds(i);
                lemma_span(row_of(i), cy as int, r as int, ROWS as int);
                lemma_far_on_an_axis(cell_middle(i), center, radius as int);
            }
        }
        while row < last_row
            invariant
                self.wf(),
                self.version == old(self).version,
                start == old(self).chart(),
                bounded(center),
                0 <= radius,
                cx == center.x,
                cy == center.y,
                r == radius,
                first_column == span_first(cx - r, COLUMNS as int),
                last_column == span_last(cx + r, COLUMNS as int),
                first_column <= COLUMNS,
                last_column <= COLUMNS,
                last_row <= ROWS,
                row <= ROWS,
                forall|i: int| 0 <= i < CELLS ==> #[trigger] self.explored@[i] == (start[i] || (within_spec(
                    cell_middle(i), center, radius as int) && row_of(i) < row)),
            decreases last_row - row,
        {
            let mut column = first_column;
            proof {
                assert forall|i: int| 0 <= i < CELLS && row_of(i) == row && col_of(i) < first_column implies !within_spec(
                    #[trigger] cell_middle(i), center, radius as int) by {
                    lemma_cell_bounds(i);
                    lemma_span(col_of(i), cx as int, r as int, COLUMNS as int);
                    lemma_far_on_an_axis(cell_middle(i), center, radius as int);
                }
            }
            while column < last_column
                invariant
                    self.wf(),
                    self.version == old(self).version,
                    start == old(self).chart(),
                    bounded(center),
                    0 <= radius,
                    cx == center.x,
                    cy == center.y,
                    r == radius,
                    first_column == span_first(cx - r, COLUMNS as int),
                    last_column == span_last(cx + r, COLUMNS as int),
                    last_column <= COLUMNS,
                    row < ROWS,
                    column <= COLUMNS,
                    forall|i: int| 0 <= i < CELLS ==> #[trigger] self.explored@[i] == (start[i] || (within_spec(
                        cell_middle(i), center, radius as int) && (row_of(i) < row || (row_of(i) == row
                        && col_of(i) < column)))),
                decreases last_column - column,
            {
                let middle = Self::middle(column, row);
                let index = row * COLUMNS + column;
                proof {
                    lemma_index(row as int, column as int);
                    assert(index < CELLS) by (nonlinear_arith)
                        requires
                            index == row * COLUMNS + column,
                            row < ROWS,
                            column < COLUMNS,
                    ;
                }
                if within(middle, center, radius) {
                    self.explored.set(index, true);
                }
                proof {
                    assert forall|i: int| 0 <= i < CELLS implies #[trigger] self.explored@[i] == (start[i] || (
                        within_spec(cell_middle(i), center, radius as int) && (row_of(i) < row || (row_of(i)
                        == row && col_of(i) < column + 1)))) by {
                        lemma_cell_bounds(i);
                        if i != index {
                            if row_of(i) == row && col_of(i) == column {
                                assert(i == index);
                            }
                        }
                    }
                }
                column += 1;
            }
            proof {
                assert forall|i: int| 0 <= i < CELLS && row_of(i) == row && col_of(i) >= last_column implies !within_spec(
                    #[trigger] cell_middle(i), center, radius as int) by {
                    lemma_cell_bounds(i);
                    lemma_span(col_of(i), cx as int, r as int, COLUMNS as int);
                    lemma_far_on_an_axis(cell_middle(i), center, radius as int);
                }
            }
            row += 1;
        }
        proof {
            assert forall|i: int| 0 <= i < CELLS && row_of(i) >= last_row implies !within_spec(
                #[trigger] cell_middle(i), center, radius as int) by {
                lemma_cell_bounds(i);
                lemma_span(row_of(i), cy as int, r as int, ROWS as int);
                lemma_far_on_an_axis(cell_middle(i), center, radius as int);
            }
        }
        assert(self.explored@ =~= revealed(start, center, radius as int));
    }

    /// Stop `k` of `steps` along the way from `from` to `to`.
    fn path_point(from: Point, to: Point, k: i128, steps: i128) -> (p: Point)
        requires
            bounded(from),
            bounded(to),
            0 <= k <= steps,
            0 < steps < 0x8000_0000,
        ensures
            p == path_point(from, to, k as int, steps as int),
            bounded(p),
    {
        let x = from.x as i128 + part_along(to.x as i128 - from.x as i128, k, steps);
        let y = from.y as i128 + part_along(to.y as i128 - from.y as i128, k, steps);
        Point { x: x as i64, y: y as i64 }
    }

    /// A ship charts the whole way along its order, not just where it stops.
    pub fn reveal_path(&mut self, from: Point, to: Point, radius: i64)
        requires
            old(self).wf(),
            bounded(from),
            bounded(to),
            0 <= radius <= COORD_LIMIT,
        ensures
            final(self).wf(),
            final(self).version_spec() == old(self).version_spec(),
            ({
                let steps = path_steps(from, to, crate::geometry::floor_sqrt(crate::geometry::dist_sq(from, to) as nat) as int);
                final(self).chart() == path_revealed(old(self).chart(), from, to, steps, radius as int, steps + 1)
            }),
    {
        let ghost start = self.explored@;
        let length = distance(from, to) as i128;
        let stops = (length + 2 * CELL as i128 - 1) / (2 * CELL as i128);
        let steps: i128 = if stops < 1 { 1 } else { stops };
        assert(steps < 0x8000_0000) by {
            vstd::arithmetic::div_mod::lemma_div_is_ordered(length + 2 * CELL - 1, 0x4000_0000_0000_0000 + 2 * CELL, 2 * CELL as int);
        }
        assert(path_revealed(start, from, to, steps as int, radius as int, 0) =~= start);
        let mut k: i128 = 0;
        while k <= steps
            invariant
                self.wf(),
                self.version == old(self).version,
                start == old(self).chart(),
                bounded(from),
                bounded(to),
                0 <= radius <= COORD_LIMIT,
                0 < steps < 0x8000_0000,
                0 <= k <= steps + 1,
                self.explored@ == path_revealed(start, from, to, steps as int, radius as int, k as int),
            decreases steps + 1 - k,
        {
            let stop = Self::path_point(from, to, k, steps);
            let ghost before = self.explored@;
            self.reveal_disc(stop, radius);
            proof {
                assert forall|i: int| 0 <= i < CELLS implies #[trigger] self.explored@[i] == path_revealed(
                    start, from, to, steps as int, radius as int, k + 1)[i] by {
                    if within_spec(cell_middle(i), stop, radius as int) {
                        assert(path_revealed(start, from, to, steps as int, radius as int, k + 1)[i]);
                    } else if path_revealed(start, from, to, steps as int, radius as int, k + 1)[i] && !start[i] {
                        let j = choose|j: int| 0 <= j < k + 1 && within_spec(cell_middle(i),
                            #[trigger] path_point(from, to, j, steps as int), radius as int);
                        if j == k {
                        } else {
                            assert(before[i]);
                        }
                    }
                }
            }
            assert(self.explored@ =~= path_revealed(start, from, to, steps as int, radius as int, k + 1));
            k += 1;
        }
    }

    /// Two bytes per cell for the GPU: charted, and lit by `sources` right now.
    pub fn texture(&self, sources: &Vec<(Point, i64)>) -> (bytes: Vec<u8>)
        requires
            self.wf(),
            forall|s: int| 0 <= s < sources@.len() ==> bounded(#[trigger] sources@[s].0),
        ensures
            bytes@.len() == 2 * CELLS,
            forall|i: int| 0 <= i < CELLS ==> #[trigger] bytes@[2 * i] == (if self.chart()[i] { 255u8 } else { 0u8 }),
            forall|i: int| 0 <= i < CELLS ==> #[trigger] bytes@[2 * i + 1] == (if self.chart()[i] && lit_by(sources@, i) {
                255u8
            } else {
                0u8
            }),
            forall|i: int| 0 <= i < CELLS && #[trigger] bytes@[2 * i + 1] == 255 ==> bytes@[2 * i] == 255,
    {
        let mut bytes: Vec<u8> = Vec::new();
        let mut i: usize = 0;
        while i < CELLS
            invariant
                self.wf(),
                forall|s: int| 0 <= s < sources@.len() ==> bounded(#[trigger] sources@[s].0),
                i <= CELLS,
                bytes@.len() == 2 * i,
                forall|j: int| 0 <= j < i ==> #[trigger] bytes@[2 * j] == (if self.chart()[j] { 255u8 } else { 0u8 }),
                forall|j: int| 0 <= j < i ==> #[trigger] bytes@[2 * j + 1] == (if self.chart()[j] && lit_by(sources@, j) {
                    255u8
                } else {
                    0u8
                }),
            decreases CELLS - i,
        {
            let explored = self.explored[i];
            proof {
                lemma_cell_bounds(i as int);
            }
            let middle = Self::middle(i % COLUMNS, i / COLUMNS);
            let mut lit = false;
            if explored {
                let mut s: usize = 0;
                while s < sources.len()
                    invariant
                        forall|t: int| 0 <= t < sources@.len() ==> bounded(#[trigger] sources@[t].0),
                        middle == cell_middle(i as int),
                        bounded(middle),
                        s <= sources@.len(),
                        lit == exists|t: int| 0 <= t < s && within_spec(middle, #[trigger] sources@[t].0, sources@[t].1 as int),
                    decreases sources@.len() - s,
                {
                    let (center, radius) = sources[s];
                    if within(middle, center, radius) {
                        lit = true;
                    }
                    s += 1;
                }
            }
            let ghost before = bytes@;
            bytes.push(if explored { 255 } else { 0 });
            bytes.push(if lit { 255 } else { 0 });
            proof {
                assert forall|j: int| 0 <= j < i + 1 implies #[trigger] bytes@[2 * j] == (if self.chart()[j] { 255u8 } else { 0u8 }) by {
                    if j < i {
                        assert(bytes@[2 * j] == before[2 * j]);
                    }
                }
                assert forall|j: int| 0 <= j < i + 1 implies #[trigger] bytes@[2 * j + 1] == (if self.chart()[j] && lit_by(sources@, j) {
                    255u8
                } else {
                    0u8
                }) by {
                    if j < i {
                        assert(bytes@[2 * j + 1] == before[2 * j + 1]);
                    }
                }
            }
            i += 1;
        }
        bytes
    }

    /// The first cell along an axis whose centre can lie at or above `low`.
    fn span_start(low: i128, limit: usize) -> (first: usize)
        requires
            -0x1_0000_0000_0000_0000 <= low <= 0x1_0000_0000_0000_0000,
            limit <= 1000,
        ensures
            first == span_first(low as int, limit as int),
            first <= limit,
    {
        if low <= 0 {
            0
        } else {
            let q = low / CELL as i128;
            if q > limit as i128 {
                limit
            } else {
                q as usize
            }
        }
    }

    /// One past the last cell along an axis whose centre can lie at or below `high`.
    fn span_end(high: i128, limit: usize) -> (last: usize)
        requires
            -0x1_0000_0000_0000_0000 <= high <= 0x1_0000_0000_0000_0000,
            limit <= 1000,
        ensures
            last == span_last(high as int, limit as int),
            last <= limit,
    {
        if high <= 0 {
            0
        } else {
            let q = (high + CELL as i128 - 1) / CELL as i128;
            if q > limit as i128 {
                limit
            } else {
                q as usize
            }
        }
    }
}

} // verus!
