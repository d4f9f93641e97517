//! The game state: sides, fleets, and everything the rules track.
use vstd::prelude::*;

use crate::economy::{end_turn_room, securing_all, Build, PlanetState, Resources};
use crate::fog::{cell_middle, next_version, next_version_spec, revealed, Fog, CELLS};
use crate::geometry::{bounded, on_map, within, within_spec, Point, COORD_LIMIT};
use crate::layout::REGION_COUNT;
use crate::planets::{planet_spec, planets, PLANET_COUNT};
use crate::poi::{law_seeding_puts_at_most_one_point_in_each_sector, one_per_sector, seed_spec, Poi};
use crate::rng::{scrambled, Rng};

verus! {

/// A scout is fast: an average ship moves 100 per turn. It crosses the map in
/// about twenty turns and a sector in about seven.
pub const SCOUT_SPEED: i64 = 150_000_000_000;
/// A scout sees a little past where it can reach this turn.
pub const SCOUT_VISION: i64 = 225_000_000_000;
/// A world you hold keeps one move of space around it in view.
pub const PLANET_VISION: i64 = 150_000_000_000;
/// The seed `Game::default` uses.
pub const FIXED_SEED: u64 = 0x5EED_5EED;
/// Where the count of chart versions starts for a first game.
pub const FIRST_VERSION: u64 = 1;

#[derive(Clone, Copy, Debug, PartialEq, Eq, Structural)]
pub enum Side {
    Player,
    Dominion,
}

impl Side {
    /// The faction name as the player sees it.
    pub fn name(self) -> (name: &'static str)
        ensures
            name@ == (match self {
                Side::Player => "Farlight"@,
                Side::Dominion => "Starfall"@,
            }),
    {
        match self {
            Side::Player => "Farlight",
            Side::Dominion => "Starfall",
        }
    }
}

#[derive(Clone, Debug, PartialEq, Eq)]
pub struct Fleet {
    pub id: u32,
    pub name: String,
    pub owner: Side,
    pub position: Point,
    pub speed: i64,
    pub remaining: i64,
    /// How far it sees.
    pub vision: i64,
}

/// A fleet as the rules see it.
pub struct FleetModel {
    pub id: u32,
    pub name: Seq<char>,
    pub owner: Side,
    pub position: Point,
    pub speed: i64,
    pub remaining: i64,
    pub vision: i64,
}

impl View for Fleet {
    type V = FleetModel;

    open spec fn view(&self) -> FleetModel {
        FleetModel {
            id: self.id,
            name: self.name@,
            owner: self.owner,
            position: self.position,
            speed: self.speed,
            remaining: self.remaining,
            vision: self.vision,
        }
    }
}

/// Everything the rules track, as mathematical values.
pub struct GameModel {
    pub turn: u64,
    pub active_side: Side,
    pub fleets: Seq<FleetModel>,
    pub chart: Seq<bool>,
    pub fog_version: u64,
    pub versions: u64,
    pub planets: Seq<PlanetState>,
    pub stockpile: Resources,
    pub shipyard: Option<Build>,
    pub next_fleet_id: u32,
    pub pois: Seq<Poi>,
    pub respawn: Seq<u32>,
    pub rng: u64,
    pub next_poi_id: u32,
}

#[derive(Clone, Debug, PartialEq, Eq)]
pub struct Game {
    pub turn: u64,
    pub active_side: Side,
    pub fleets: Vec<Fleet>,
    /// The player's chart. The Dominion has no fog of its own yet.
    pub fog: Fog,
    /// The counter the chart's versions come from: each change of the chart takes
    /// the next number, so a version once seen stays with one picture.
    pub versions: u64,
    /// One entry per planet in the planet table.
    pub planets: Vec<PlanetState>,
    pub stockpile: Resources,
    /// The ship under construction at the home world.
    pub shipyard: Option<Build>,
    /// Ids for ships launched during play; the first scout is 0.
    pub next_fleet_id: u32,
    pub pois: Vec<Poi>,
    /// Per sector: turns until a salvaged sector may get a new point.
    pub respawn: Vec<u32>,
    pub rng: Rng,
    pub next_poi_id: u32,
}

impl View for Game {
    type V = GameModel;

    open spec fn view(&self) -> GameModel {
        GameModel {
            turn: self.turn,
            active_side: self.active_side,
            fleets: self.fleets@.map_values(|f: Fleet| f@),
            chart: self.fog.chart(),
            fog_version: self.fog.version_spec(),
            versions: self.versions,
            planets: self.planets@,
            stockpile: self.stockpile,
            shipyard: self.shipyard,
            next_fleet_id: self.next_fleet_id,
            pois: self.pois@,
            respawn: self.respawn@,
            rng: self.rng@,
            next_poi_id: self.next_poi_id,
        }
    }
}

/// A fleet the rules can work with: on the map, with movement and sight in range.
pub open spec fn fleet_wf(f: FleetModel) -> bool {
    &&& on_map(f.position)
    &&& 0 <= f.speed <= COORD_LIMIT
    &&& 0 <= f.remaining <= COORD_LIMIT
    &&& 0 <= f.vision <= COORD_LIMIT
}

/// A planet's securing state: influence stays below the turns it takes, and is
/// zero unless an effort is under way.
pub open spec fn planet_state_wf(state: PlanetState, i: int) -> bool {
    &&& state.influence < planet_spec(i).secure_turns
    &&& !state.securing ==> state.influence == 0
}

pub open spec fn poi_wf(poi: Poi) -> bool {
    bounded(poi.position) && poi.sector < REGION_COUNT
}

impl GameModel {
    /// The state every rule keeps.
    pub open spec fn wf(self) -> bool {
        &&& self.planets.len() == PLANET_COUNT
        &&& self.respawn.len() == REGION_COUNT
        &&& self.chart.len() == crate::fog::CELLS
        &&& self.rng != 0
        &&& forall|i: int| 0 <= i < self.fleets.len() ==> fleet_wf(#[trigger] self.fleets[i])
        &&& forall|i: int| 0 <= i < PLANET_COUNT ==> planet_state_wf(#[trigger] self.planets[i], i)
        &&& self.shipyard matches Some(build) ==> 1 <= build.turns_left <= build.kind.build_turns_spec()
        &&& forall|i: int| 0 <= i < self.pois.len() ==> poi_wf(#[trigger] self.pois[i])
        &&& self.fog_version != self.versions
    }

    /// What `side` sees at `point`, with each of its fleets drawn at `shown`:
    /// its fleets and the worlds it holds.
    pub open spec fn sees(self, side: Side, shown: Seq<Point>, point: Point) -> bool {
        ||| exists|i: int| 0 <= i < self.fleets.len() && self.fleets[i].owner == side && within_spec(
            point, #[trigger] shown[i], self.fleets[i].vision as int)
        ||| exists|j: int| 0 <= j < PLANET_COUNT && self.planets[j].owner == Some(side) && within_spec(
            point, #[trigger] planet_spec(j).position, PLANET_VISION as int)
    }

    /// Where the rules have each fleet.
    pub open spec fn positions(self) -> Seq<Point> {
        self.fleets.map_values(|f: FleetModel| f.position)
    }

    pub open spec fn can_see_spec(self, side: Side, point: Point) -> bool {
        self.sees(side, self.positions(), point)
    }
}

/// Vision from the fleets of `side` among the first `k`, each drawn at `shown`.
pub open spec fn fleet_sources(fleets: Seq<FleetModel>, shown: Seq<Point>, side: Side, k: int) -> Seq<(Point, i64)>
    decreases k,
{
    if k <= 0 {
        Seq::empty()
    } else {
        let before = fleet_sources(fleets, shown, side, k - 1);
        if fleets[k - 1].owner == side {
            before.push((shown[k - 1], fleets[k - 1].vision))
        } else {
            before
        }
    }
}

/// Vision from the worlds `side` holds among the first `k`.
pub open spec fn planet_sources(planets: Seq<PlanetState>, side: Side, k: int) -> Seq<(Point, i64)>
    decreases k,
{
    if k <= 0 {
        Seq::empty()
    } else {
        let before = planet_sources(planets, side, k - 1);
        if planets[k - 1].owner == Some(side) {
            before.push((planet_spec(k - 1).position, PLANET_VISION))
        } else {
            before
        }
    }
}

/// Some source lights `point`.
pub open spec fn covered(sources: Seq<(Point, i64)>, point: Point) -> bool {
    exists|s: int| 0 <= s < sources.len() && within_spec(point, #[trigger] sources[s].0, sources[s].1 as int)
}

pub proof fn lemma_fleet_sources(fleets: Seq<FleetModel>, shown: Seq<Point>, side: Side, k: int, point: Point)
    requires
        0 <= k <= fleets.len(),
        shown.len() == fleets.len(),
    ensures
        covered(fleet_sources(fleets, shown, side, k), point) == exists|i: int| 0 <= i < k && fleets[i].owner
            == side && within_spec(point, #[trigger] shown[i], fleets[i].vision as int),
        forall|s: int| 0 <= s < fleet_sources(fleets, shown, side, k).len() ==> exists|i: int| 0 <= i < k
            && #[trigger] fleet_sources(fleets, shown, side, k)[s] == (shown[i], fleets[i].vision),
    decreases k,
{
    if k > 0 {
        lemma_fleet_sources(fleets, shown, side, k - 1, point);
        let before = fleet_sources(fleets, shown, side, k - 1);
        let now = fleet_sources(fleets, shown, side, k);
        let hit = exists|i: int| 0 <= i < k && fleets[i].owner == side && within_spec(point, #[trigger] shown[i],
            fleets[i].vision as int);
        let hit_before = exists|i: int| 0 <= i < k - 1 && fleets[i].owner == side && within_spec(point,
            #[trigger] shown[i], fleets[i].vision as int);
        let last = fleets[k - 1].owner == side && within_spec(point, shown[k - 1], fleets[k - 1].vision as int);
        assert(hit == (hit_before || last)) by {
            if hit {
                let i = choose|i: int| 0 <= i < k && fleets[i].owner == side && within_spec(point, #[trigger] shown[i],
                    fleets[i].vision as int);
                if i < k - 1 {
                    assert(hit_before);
                }
            }
            if hit_before {
                let i = choose|i: int| 0 <= i < k - 1 && fleets[i].owner == side && within_spec(point,
                    #[trigger] shown[i], fleets[i].vision as int);
                assert(0 <= i < k);
            }
            if last {
                assert(within_spec(point, shown[k - 1], fleets[k - 1].vision as int));
            }
        }
        if fleets[k - 1].owner == side {
            let entry = (shown[k - 1], fleets[k - 1].vision);
            assert(now == before.push(entry));
            assert(covered(now, point) == (covered(before, point) || last)) by {
                if covered(now, point) {
                    let s = choose|s: int| 0 <= s < now.len() && within_spec(point, #[trigger] now[s].0, now[s].1 as int);
                    if s < before.len() {
                        assert(now[s] == before[s]);
                        assert(within_spec(point, before[s].0, before[s].1 as int));
                    } else {
                        assert(now[s] == entry);
                    }
                }
                if covered(before, point) {
                    let s = choose|s: int| 0 <= s < before.len() && within_spec(point, #[trigger] before[s].0, before[s].1 as int);
                    assert(now[s] == before[s]);
                    assert(within_spec(point, now[s].0, now[s].1 as int));
                }
                if last {
                    assert(now[before.len() as int] == entry);
                    assert(within_spec(point, now[before.len() as int].0, now[before.len() as int].1 as int));
                }
            }
            assert forall|s: int| 0 <= s < now.len() implies exists|i: int| 0 <= i < k
                && #[trigger] now[s] == (shown[i], fleets[i].vision) by {
                if s < before.len() {
                    let i = choose|i: int| 0 <= i < k - 1 && #[trigger] before[s] == (shown[i], fleets[i].vision);
                    assert(now[s] == (shown[i], fleets[i].vision));
                } else {
                    assert(now[s] == (shown[k - 1], fleets[k - 1].vision));
                }
            }
        } else {
            assert(now == before);
            assert(!last);
            assert forall|s: int| 0 <= s < now.len() implies exists|i: int| 0 <= i < k
                && #[trigger] now[s] == (shown[i], fleets[i].vision) by {
                let i = choose|i: int| 0 <= i < k - 1 && #[trigger] before[s] == (shown[i], fleets[i].vision);
                assert(now[s] == (shown[i], fleets[i].vision));
            }
        }
    }
}

pub proof fn lemma_planet_sources(planets: Seq<PlanetState>, side: Side, k: int, point: Point)
    requires
        0 <= k <= PLANET_COUNT,
    ensures
        covered(planet_sources(planets, side, k), point) == exists|j: int| 0 <= j < k && planets[j].owner
            == Some(side) && within_spec(point, #[trigger] planet_spec(j).position, PLANET_VISION as int),
        forall|s: int| 0 <= s < planet_sources(planets, side, k).len() ==> exists|j: int| 0 <= j < k
            && #[trigger] planet_sources(planets, side, k)[s] == (planet_spec(j).position, PLANET_VISION),
    decreases k,
{
    if k > 0 {
        lemma_planet_sources(planets, side, k - 1, point);
        let before = planet_sources(planets, side, k - 1);
        let now = planet_sources(planets, side, k);
        let hit = exists|j: int| 0 <= j < k && planets[j].owner == Some(side) && within_spec(point,
            #[trigger] planet_spec(j).position, PLANET_VISION as int);
        let hit_before = exists|j: int| 0 <= j < k - 1 && planets[j].owner == Some(side) && within_spec(point,
            #[trigger] planet_spec(j).position, PLANET_VISION as int);
        let last = planets[k - 1].owner == Some(side) && within_spec(point, planet_spec(k - 1).position,
            PLANET_VISION as int);
        assert(hit == (hit_before || last)) by {
            if hit {
                let j = choose|j: int| 0 <= j < k && planets[j].owner == Some(side) && within_spec(point,
                    #[trigger] planet_spec(j).position, PLANET_VISION as int);
                if j < k - 1 {
                    assert(hit_before);
                }
            }
            if hit_before {
                let j = choose|j: int| 0 <= j < k - 1 && planets[j].owner == Some(side) && within_spec(point,
                    #[trigger] planet_spec(j).position, PLANET_VISION as int);
                assert(0 <= j < k);
            }
            if last {
                assert(within_spec(point, planet_spec(k - 1).position, PLANET_VISION as int));
            }
        }
        if planets[k - 1].owner == Some(side) {
            let entry = (planet_spec(k - 1).position, PLANET_VISION);
            assert(now == before.push(entry));
            assert(covered(now, point) == (covered(before, point) || last)) by {
                if covered(now, point) {
                    let s = choose|s: int| 0 <= s < now.len() && within_spec(point, #[trigger] now[s].0, now[s].1 as int);
                    if s < before.len() {
                        assert(now[s] == before[s]);
                        assert(within_spec(point, before[s].0, before[s].1 as int));
                    } else {
                        assert(now[s] == entry);
                    }
                }
                if covered(before, point) {
                    let s = choose|s: int| 0 <= s < before.len() && within_spec(point, #[trigger] before[s].0, before[s].1 as int);
                    assert(now[s] == before[s]);
                    assert(within_spec(point, now[s].0, now[s].1 as int));
                }
                if last {
                    assert(now[before.len() as int] == entry);
                    assert(within_spec(point, now[before.len() as int].0, now[before.len() as int].1 as int));
                }
            }
            assert forall|s: int| 0 <= s < now.len() implies exists|j: int| 0 <= j < k
                && #[trigger] now[s] == (planet_spec(j).position, PLANET_VISION) by {
                if s < before.len() {
                    let j = choose|j: int| 0 <= j < k - 1 && #[trigger] before[s] == (planet_spec(j).position, PLANET_VISION);
                    assert(now[s] == (planet_spec(j).position, PLANET_VISION));
                } else {
                    assert(now[s] == (planet_spec(k - 1).position, PLANET_VISION));
                }
            }
        } else {
            assert(now == before);
            assert(!last);
            assert forall|s: int| 0 <= s < now.len() implies exists|j: int| 0 <= j < k
                && #[trigger] now[s] == (planet_spec(j).position, PLANET_VISION) by {
                let j = choose|j: int| 0 <= j < k - 1 && #[trigger] before[s] == (planet_spec(j).position, PLANET_VISION);
                assert(now[s] == (planet_spec(j).position, PLANET_VISION));
            }
        }
    }
}

/// Everything `side` sees with its fleets drawn at `shown`, in order: fleets first, then worlds.
pub open spec fn vision_sources_spec(game: GameModel, side: Side, shown: Seq<Point>) -> Seq<(Point, i64)> {
    fleet_sources(game.fleets, shown, side, game.fleets.len() as int) + planet_sources(
        game.planets,
        side,
        PLANET_COUNT as int,
    )
}

/// The sources light exactly what `side` sees.
pub proof fn lemma_vision_sources(game: GameModel, side: Side, shown: Seq<Point>, point: Point)
    requires
        game.wf(),
        shown.len() == game.fleets.len(),
    ensures
        covered(vision_sources_spec(game, side, shown), point) == game.sees(side, shown, point),
{
    let f = fleet_sources(game.fleets, shown, side, game.fleets.len() as int);
    let p = planet_sources(game.planets, side, PLANET_COUNT as int);
    lemma_fleet_sources(game.fleets, shown, side, game.fleets.len() as int, point);
    lemma_planet_sources(game.planets, side, PLANET_COUNT as int, point);
    let all = f + p;
    if covered(all, point) {
        let s = choose|s: int| 0 <= s < all.len() && within_spec(point, #[trigger] all[s].0, all[s].1 as int);
        if s < f.len() {
            assert(all[s] == f[s]);
        } else {
            assert(all[s] == p[s - f.len()]);
        }
    }
    if covered(f, point) {
        let s = choose|s: int| 0 <= s < f.len() && within_spec(point, #[trigger] f[s].0, f[s].1 as int);
        assert(all[s] == f[s]);
    }
    if covered(p, point) {
        let s = choose|s: int| 0 <= s < p.len() && within_spec(point, #[trigger] p[s].0, p[s].1 as int);
        assert(all[s + f.len()] == p[s]);
    }
}

impl Game {
    /// Vision with each fleet where `shown` puts it, so the screen can light a
    /// ship from where it is drawn mid-glide.
    pub fn vision_sources_shown(&self, side: Side, shown: &Vec<Point>) -> (sources: Vec<(Point, i64)>)
        requires
            self@.wf(),
            shown@.len() == self.fleets@.len(),
        ensures
            sources@ == vision_sources_spec(self@, side, shown@),
    {
        let mut sources: Vec<(Point, i64)> = Vec::new();
        let mut i: usize = 0;
        while i < self.fleets.len()
            invariant
                shown@.len() == self.fleets@.len(),
                i <= self.fleets@.len(),
                sources@ == fleet_sources(self@.fleets, shown@, side, i as int),
            decreases self.fleets@.len() - i,
        {
            if self.fleets[i].owner == side {
                sources.push((shown[i], self.fleets[i].vision));
            }
            i += 1;
        }
        let table = planets();
        let ghost fleet_part = sources@;
        let mut j: usize = 0;
        while j < PLANET_COUNT
            invariant
                self@.wf(),
                table@.len() == PLANET_COUNT,
                forall|k: int| 0 <= k < PLANET_COUNT ==> #[trigger] table@[k] == planet_spec(k),
                j <= PLANET_COUNT,
                sources@ == fleet_part + planet_sources(self@.planets, side, j as int),
            decreases PLANET_COUNT - j,
        {
            if self.planets[j].owner == Some(side) {
                sources.push((table[j].position, PLANET_VISION));
            }
            assert(sources@ =~= fleet_part + planet_sources(self@.planets, side, j + 1));
            j += 1;
        }
        sources
    }

    /// Where the rules have each fleet.
    pub fn positions(&self) -> (positions: Vec<Point>)
        ensures
            positions@ == self@.positions(),
    {
        let mut positions: Vec<Point> = Vec::new();
        let mut i: usize = 0;
        while i < self.fleets.len()
            invariant
                i <= self.fleets@.len(),
                positions@ == self@.positions().take(i as int),
            decreases self.fleets@.len() - i,
        {
            positions.push(self.fleets[i].position);
            i += 1;
            assert(positions@ =~= self@.positions().take(i as int));
        }
        assert(positions@ =~= self@.positions());
        positions
    }

    /// Everything `side` can see right now: its fleets and the worlds it holds.
    pub fn vision_sources(&self, side: Side) -> (sources: Vec<(Point, i64)>)
        requires
            self@.wf(),
        ensures
            sources@ == vision_sources_spec(self@, side, self@.positions()),
    {
        let shown = self.positions();
        self.vision_sources_shown(side, &shown)
    }

    pub fn can_see(&self, side: Side, point: Point) -> (seen: bool)
        requires
            self@.wf(),
            bounded(point),
        ensures
            seen == self@.can_see_spec(side, point),
    {
        let sources = self.vision_sources(side);
        proof {
            lemma_sources_bounded(self@, side, self@.positions());
            lemma_vision_sources(self@, side, self@.positions(), point);
        }
        let mut seen = false;
        let mut s: usize = 0;
        while s < sources.len()
            invariant
                bounded(point),
                forall|t: int| 0 <= t < sources@.len() ==> bounded(#[trigger] sources@[t].0) && 0 <= sources@[t].1
                    <= COORD_LIMIT,
                s <= sources@.len(),
                seen == exists|t: int| 0 <= t < s && within_spec(point, #[trigger] sources@[t].0, sources@[t].1 as int),
            decreases sources@.len() - s,
        {
            let (center, radius) = sources[s];
            if within(point, center, radius) {
                seen = true;
            }
            s += 1;
        }
        seen
    }
}

/// Every vision source sits on the map and sees a bounded distance.
pub proof fn lemma_sources_bounded(game: GameModel, side: Side, shown: Seq<Point>)
    requires
        game.wf(),
        shown.len() == game.fleets.len(),
        forall|i: int| 0 <= i < shown.len() ==> bounded(#[trigger] shown[i]),
    ensures
        forall|t: int| 0 <= t < vision_sources_spec(game, side, shown).len() ==> bounded(
            #[trigger] vision_sources_spec(game, side, shown)[t].0) && 0 <= vision_sources_spec(game, side, shown)[t].1
            <= COORD_LIMIT,
{
    let f = fleet_sources(game.fleets, shown, side, game.fleets.len() as int);
    let p = planet_sources(game.planets, side, PLANET_COUNT as int);
    lemma_fleet_sources(game.fleets, shown, side, game.fleets.len() as int, Point { x: 0, y: 0 });
    lemma_planet_sources(game.planets, side, PLANET_COUNT as int, Point { x: 0, y: 0 });
    let all = f + p;
    assert forall|t: int| 0 <= t < all.len() implies bounded(#[trigger] all[t].0) && 0 <= all[t].1 <= COORD_LIMIT by {
        if t < f.len() {
            assert(all[t] == f[t]);
            let i = choose|i: int| 0 <= i < game.fleets.len() && #[trigger] f[t] == (shown[i], game.fleets[i].vision);
            assert(fleet_wf(game.fleets[i]));
        } else {
            assert(all[t] == p[t - f.len()]);
            let j = choose|j: int| 0 <= j < PLANET_COUNT && #[trigger] p[t - f.len()] == (planet_spec(j).position, PLANET_VISION);
            crate::planets::lemma_planet_table(j);
        }
    }
}

/// The scout every game starts with, west of Arcadia.
pub open spec fn first_scout() -> FleetModel {
    FleetModel {
        id: 0,
        name: "Farlight Scout"@,
        owner: Side::Player,
        position: Point { x: 300_000_000_000, y: 1_000_000_000_000 },
        speed: SCOUT_SPEED,
        remaining: SCOUT_SPEED,
        vision: SCOUT_VISION,
    }
}

/// A game before anything is charted or placed: turn one, the scout, every
/// planet with its starting owner, and the generator seeded. The chart takes its
/// version from the counter `versions`.
pub open spec fn blank_game(seed: u64, versions: u64) -> GameModel {
    GameModel {
        turn: 1,
        active_side: Side::Player,
        fleets: seq![first_scout()],
        chart: Seq::new(CELLS as nat, |i: int| false),
        fog_version: versions,
        versions: next_version_spec(versions),
        planets: Seq::new(
            PLANET_COUNT as nat,
            |i: int| PlanetState { owner: planet_spec(i).owner, influence: 0, securing: false },
        ),
        stockpile: Resources { alloys: 0, electronics: 0 },
        shipyard: None,
        next_fleet_id: 1,
        pois: Seq::empty(),
        respawn: Seq::new(REGION_COUNT as nat, |i: int| 0u32),
        rng: scrambled(seed),
        next_poi_id: 1,
    }
}

/// The chart after charting around each of the first `k` sources.
pub open spec fn reveal_all(chart: Seq<bool>, sources: Seq<(Point, i64)>, k: int) -> Seq<bool>
    decreases k,
{
    if k <= 0 {
        chart
    } else {
        revealed(reveal_all(chart, sources, k - 1), sources[k - 1].0, sources[k - 1].1 as int)
    }
}

/// A fresh game from `seed`: you start knowing only what your home and your
/// scout can see, and every sector gets its point of interest.
pub open spec fn start_spec(seed: u64, versions: u64) -> GameModel {
    let blank = blank_game(seed, versions);
    let sources = vision_sources_spec(blank, Side::Player, blank.positions());
    seed_spec(GameModel { chart: reveal_all(blank.chart, sources, sources.len() as int), ..blank })
}

pub proof fn lemma_reveal_all(chart: Seq<bool>, sources: Seq<(Point, i64)>, k: int, i: int)
    requires
        0 <= k <= sources.len(),
        0 <= i < chart.len(),
    ensures
        reveal_all(chart, sources, k).len() == chart.len(),
        reveal_all(chart, sources, k)[i] == (chart[i] || exists|s: int| 0 <= s < k && within_spec(
            cell_middle(i),
            #[trigger] sources[s].0,
            sources[s].1 as int,
        )),
    decreases k,
{
    if k > 0 {
        lemma_reveal_all(chart, sources, k - 1, i);
        let last = within_spec(cell_middle(i), sources[k - 1].0, sources[k - 1].1 as int);
        if last {
            assert(exists|s: int| 0 <= s < k && within_spec(cell_middle(i), #[trigger] sources[s].0, sources[s].1 as int));
        }
        if exists|s: int| 0 <= s < k && within_spec(cell_middle(i), #[trigger] sources[s].0, sources[s].1 as int) {
            let s = choose|s: int| 0 <= s < k && within_spec(cell_middle(i), #[trigger] sources[s].0, sources[s].1 as int);
            if s < k - 1 {
                assert(exists|t: int| 0 <= t < k - 1 && within_spec(cell_middle(i), #[trigger] sources[t].0, sources[t].1 as int));
            }
        }
    }
}

/// A new game: you start knowing only what your home and your scout can see,
/// every sector holds at most one point of interest, and nothing has been
/// earned or built yet. Its chart takes the counter's next version, so a game
/// that follows another never shows a version the earlier one showed.
pub proof fn law_a_new_game_starts_in_sight_of_home(seed: u64, versions: u64, i: int)
    requires
        0 <= i < CELLS,
    ensures
        start_spec(seed, versions).chart[i] == blank_game(seed, versions).can_see_spec(Side::Player, cell_middle(i)),
        one_per_sector(start_spec(seed, versions).pois),
        start_spec(seed, versions).turn == 1,
        start_spec(seed, versions).active_side == Side::Player,
        start_spec(seed, versions).stockpile == (Resources { alloys: 0, electronics: 0 }),
        start_spec(seed, versions).shipyard is None,
        start_spec(seed, versions).fog_version == versions,
        start_spec(seed, versions).versions == next_version_spec(versions),
{
    let blank = blank_game(seed, versions);
    assert forall|k: int| 0 <= k < PLANET_COUNT implies planet_state_wf(#[trigger] blank.planets[k], k) by {
        crate::planets::lemma_planet_table(k);
    }
    crate::rng::lemma_scrambled_nonzero(seed);
    assert(blank.wf());
    let sources = vision_sources_spec(blank, Side::Player, blank.positions());
    let lit = GameModel { chart: reveal_all(blank.chart, sources, sources.len() as int), ..blank };
    lemma_reveal_all(blank.chart, sources, sources.len() as int, i);
    lemma_vision_sources(blank, Side::Player, blank.positions(), cell_middle(i));
    law_seeding_puts_at_most_one_point_in_each_sector(lit);
}

/// A new game gives every planet its owner from the planet table (Arcadia to
/// Farlight, the Dominion's worlds to the Dominion, the rest to nobody), with
/// no influence and no effort under way.
pub proof fn law_a_new_game_starts_with_the_table_owners(seed: u64, versions: u64, i: int)
    requires
        0 <= i < PLANET_COUNT,
    ensures
        start_spec(seed, versions).planets[i].owner == planet_spec(i).owner,
        start_spec(seed, versions).planets[i].influence == 0,
        !start_spec(seed, versions).planets[i].securing,
{
    let blank = blank_game(seed, versions);
    let sources = vision_sources_spec(blank, Side::Player, blank.positions());
    let lit = GameModel { chart: reveal_all(blank.chart, sources, sources.len() as int), ..blank };
    law_seeding_puts_at_most_one_point_in_each_sector(lit);
}

impl Default for Game {
    fn default() -> (game: Game)
        ensures
            game@ == start_spec(FIXED_SEED, FIRST_VERSION),
            game@.wf(),
    {
        Game::new(FIXED_SEED)
    }
}

impl Game {
    /// A fresh game. The seed decides where every point of interest lies: the
    /// whole game is a function of it. Its chart's versions count from the start.
    pub fn new(seed: u64) -> (game: Game)
        ensures
            game@ == start_spec(seed, FIRST_VERSION),
            game@.wf(),
            game@.fleets.len() == 1,
            game@.stockpile == (Resources { alloys: 0, electronics: 0 }),
            game@.next_poi_id <= 1 + REGION_COUNT,
            end_turn_room(game@),
    {
        Game::with_versions(seed, FIRST_VERSION)
    }

    /// A fresh game from `seed` whose chart takes its versions from the counter
    /// `versions`, so that a game that follows another never repeats a version
    /// the earlier one showed.
    pub fn with_versions(seed: u64, versions: u64) -> (game: Game)
        ensures
            game@ == start_spec(seed, versions),
            game@.wf(),
            game@.fleets.len() == 1,
            game@.stockpile == (Resources { alloys: 0, electronics: 0 }),
            game@.next_poi_id <= 1 + REGION_COUNT,
            end_turn_room(game@),
    {
        proof {
            reveal_strlit("Farlight Scout");
        }
        let table = planets();
        let mut states: Vec<PlanetState> = Vec::new();
        let mut i: usize = 0;
        while i < PLANET_COUNT
            invariant
                table@.len() == PLANET_COUNT,
                forall|k: int| 0 <= k < PLANET_COUNT ==> #[trigger] table@[k] == planet_spec(k),
                i <= PLANET_COUNT,
                states@ == blank_game(seed, versions).planets.take(i as int),
            decreases PLANET_COUNT - i,
        {
            states.push(PlanetState { owner: table[i].owner, influence: 0, securing: false });
            i += 1;
            assert(states@ =~= blank_game(seed, versions).planets.take(i as int));
        }
        let mut fleets: Vec<Fleet> = Vec::new();
        fleets.push(
            Fleet {
                id: 0,
                name: String::from_str("Farlight Scout"),
                owner: Side::Player,
                position: Point { x: 300_000_000_000, y: 1_000_000_000_000 },
                speed: SCOUT_SPEED,
                remaining: SCOUT_SPEED,
                vision: SCOUT_VISION,
            },
        );
        let mut counter = versions;
        let version = next_version(&mut counter);
        let mut game = Game {
            turn: 1,
            active_side: Side::Player,
            fleets,
            fog: Fog::new(version),
            versions: counter,
            planets: states,
            stockpile: Resources::new(0, 0),
            shipyard: None,
            next_fleet_id: 1,
            pois: Vec::new(),
            respawn: vec![0u32; REGION_COUNT],
            rng: Rng::new(seed),
            next_poi_id: 1,
        };
        let ghost blank = blank_game(seed, versions);
        assert(game@.planets =~= blank.planets);
        assert(game@.fleets =~= blank.fleets);
        assert(game@.chart =~= blank.chart);
        assert(game@.respawn =~= blank.respawn);
        assert(game@ == blank);
        proof {
            assert forall|k: int| 0 <= k < PLANET_COUNT implies planet_state_wf(#[trigger] blank.planets[k], k) by {
                crate::planets::lemma_planet_table(k);
            }
        }
        assert(blank.wf());
        // You start knowing only what your home and your scout can see.
        let sources = game.vision_sources(Side::Player);
        proof {
            lemma_sources_bounded(blank, Side::Player, blank.positions());
        }
        let mut k: usize = 0;
        while k < sources.len()
            invariant
                blank.wf(),
                sources@ == vision_sources_spec(blank, Side::Player, blank.positions()),
                forall|t: int| 0 <= t < sources@.len() ==> bounded(#[trigger] sources@[t].0) && 0 <= sources@[t].1
                    <= COORD_LIMIT,
                k <= sources@.len(),
                game.fog.wf(),
                game@ == (GameModel { chart: reveal_all(blank.chart, sources@, k as int), ..blank }),
            decreases sources@.len() - k,
        {
            let (center, radius) = sources[k];
            game.fog.reveal_disc(center, radius);
            k += 1;
        }
        let ghost lit = game@;
        game.seed_pois();
        proof {
            law_seeding_puts_at_most_one_point_in_each_sector(lit);
            crate::economy::lemma_income_bound(securing_all(game@), PLANET_COUNT as int);
            crate::poi::lemma_respawns_due_grow(game@.pois, game@.respawn, REGION_COUNT as int, REGION_COUNT as int);
        }
        game
    }
}

} // verus!
