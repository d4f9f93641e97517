//! The player's session around the rules: which screen is up, what is
//! selected, and what a click, a key or a drag means. The window toolkit finds
//! what is under the pointer and hands the answer here; every decision about
//! what it then does to the game lives here.
use vstd::prelude::*;

use crate::actions::{apply_spec, error_text, execute, has_room, preview_spec, room_for, Action, ActionError, Preview};
use crate::economy::{append_decimal, decimal, Resources, ShipKind};
use crate::geometry::Point;
use crate::planets::{planets, planet_spec, PLANET_COUNT};
use crate::poi::{has_poi, poi_index, salvage_spec};
use crate::world::{start_spec, Game, GameModel, Side, FIRST_VERSION};

verus! {

/// A right press that moves less than this many logical pixels is a click,
/// which deselects, rather than a drag, which pans.
pub const DRAG_THRESHOLD: i64 = 6;

#[derive(Clone, Copy, Debug, PartialEq, Eq, Structural)]
pub enum Screen {
    MainMenu,
    Sector,
}

/// What the details panel is showing.
#[derive(Clone, Copy, Debug, PartialEq, Eq, Structural)]
pub enum Selection {
    Planet(usize),
    Poi(u32),
}

/// What the keyboard can focus and press: the buttons, the planets and ships
/// on the map, and the details panel's tabs and buttons.
#[derive(Clone, Copy, Debug, PartialEq, Eq, Structural)]
pub enum Widget {
    StartGame,
    Menu,
    EndTurn,
    Planet(usize),
    Ship(u32),
    DetailsTab(usize),
    ClosePanel,
    Secure(usize),
    Build(ShipKind),
    Salvage(u32),
}

#[derive(Clone, Copy, Debug, PartialEq, Eq, Structural)]
pub enum Key {
    Tab,
    Enter,
    Space,
    Escape,
    Other,
}

/// A key going down.
#[derive(Clone, Copy, Debug, PartialEq, Eq, Structural)]
pub struct KeyPress {
    pub key: Key,
    pub shift: bool,
    /// Held down and repeating.
    pub repeat: bool,
}

pub struct Shell {
    pub screen: Screen,
    pub focus: Option<Widget>,
    /// The game on the sector map. The menu keeps the last one until a new start.
    pub game: Game,
    /// What the details panel is open on.
    pub selected: Option<Selection>,
    /// Which tab of the panel is showing: 0 Overview, 1 Shipyard.
    pub details_tab: usize,
    pub selected_fleet: Option<u32>,
    /// Where the right button went down, in physical pixels, while it is held.
    pub right_press: Option<(i64, i64)>,
    /// The held right button has moved far enough to count as a drag.
    pub right_dragged: bool,
    /// The last thing the rules had to say, shown under the Command Strip.
    pub message: Option<String>,
    /// What takes the keyboard focus, in Tab order, as the screen last drew it.
    pub focusable: Vec<Widget>,
}

/// The first place at or after `k` where `ring` holds `widget`, or -1.
pub open spec fn find_from(ring: Seq<Widget>, widget: Widget, k: int) -> int
    decreases ring.len() - k,
{
    if k < 0 || k >= ring.len() {
        -1
    } else if ring[k] == widget {
        k
    } else {
        find_from(ring, widget, k + 1)
    }
}

/// Where Tab (or Shift+Tab, `back`) moves the focus along `ring`: to the
/// next (or previous) widget, round the ends; from a widget not in the ring,
/// to the first (or last).
pub open spec fn next_focus(ring: Seq<Widget>, focus: Option<Widget>, back: bool) -> Option<Widget> {
    let n = ring.len() as int;
    let k = match focus {
        Some(widget) => find_from(ring, widget, 0),
        None => -1,
    };
    if n == 0 {
        None
    } else if k < 0 {
        if back { Some(ring[n - 1]) } else { Some(ring[0]) }
    } else if back {
        Some(ring[if k == 0 { n - 1 } else { k - 1 }])
    } else {
        Some(ring[if k + 1 == n { 0 } else { k + 1 }])
    }
}

proof fn lemma_find_unique(ring: Seq<Widget>, k: int, start: int)
    requires
        0 <= start <= k < ring.len(),
        forall|i: int, j: int| 0 <= i < j < ring.len() ==> ring[i] != ring[j],
    ensures
        find_from(ring, ring[k], start) == k,
    decreases k - start,
{
    if start < k {
        lemma_find_unique(ring, k, start + 1);
    }
}

/// On a ring where no widget stands twice, Shift+Tab undoes Tab and Tab
/// undoes Shift+Tab.
pub proof fn law_back_tab_undoes_tab(ring: Seq<Widget>, widget: Widget)
    requires
        ring.contains(widget),
        forall|i: int, j: int| 0 <= i < j < ring.len() ==> ring[i] != ring[j],
    ensures
        next_focus(ring, next_focus(ring, Some(widget), false), true) == Some(widget),
        next_focus(ring, next_focus(ring, Some(widget), true), false) == Some(widget),
{
    let n = ring.len() as int;
    let k = choose|k: int| 0 <= k < n && ring[k] == widget;
    lemma_find_unique(ring, k, 0);
    let forward = if k + 1 == n { 0 } else { k + 1 };
    let backward = if k == 0 { n - 1 } else { k - 1 };
    lemma_find_unique(ring, forward, 0);
    lemma_find_unique(ring, backward, 0);
}

/// The main menu's one button.
pub open spec fn menu_ring() -> Seq<Widget> {
    seq![Widget::StartGame]
}

/// The sector map's buttons before the map and the panel are drawn.
pub open spec fn sector_ring() -> Seq<Widget> {
    seq![Widget::Menu, Widget::EndTurn]
}

/// Text for a message, if there is one.
pub open spec fn message_text(message: Option<String>) -> Option<Seq<char>> {
    match message {
        Some(text) => Some(text@),
        None => None,
    }
}

/// What the player reads after an action: nothing on success, the reason otherwise.
pub open spec fn outcome_text(result: Result<Preview, ActionError>) -> Option<Seq<char>> {
    match result {
        Ok(_) => None,
        Err(error) => Some(error_text(error)),
    }
}

/// The message when the stockpile or the id counters have no room left.
pub open spec fn full_text() -> Seq<char> {
    "The stockpile and the fleet registers are full."@
}

/// What the player reads after salvaging `loot`.
pub open spec fn salvage_text(loot: Resources) -> Seq<char> {
    "Salvaged "@ + decimal(loot.alloys as nat) + " Alloys"@ + (if loot.electronics > 0 {
        " and "@ + decimal(loot.electronics as nat) + " Advanced Electronics"@
    } else {
        Seq::empty()
    }) + "."@
}

/// The message after salvaging `loot`.
fn salvage_message(loot: Resources) -> (text: String)
    ensures
        text@ == salvage_text(loot),
{
    proof {
        reveal_strlit("Salvaged ");
        reveal_strlit(" Alloys");
        reveal_strlit(" and ");
        reveal_strlit(" Advanced Electronics");
        reveal_strlit(".");
    }
    let mut text = String::from_str("Salvaged ");
    append_decimal(&mut text, loot.alloys as usize);
    text.append(" Alloys");
    if loot.electronics > 0 {
        text.append(" and ");
        append_decimal(&mut text, loot.electronics as usize);
        text.append(" Advanced Electronics");
    }
    text.append(".");
    assert(text@ =~= salvage_text(loot));
    text
}

/// One round from the End Turn button: the player ends the turn and the
/// Dominion passes through the same rules. The game after it and the message
/// it leaves; with no room left for what the turn adds, nothing happens but
/// the message.
pub open spec fn round_spec(game: GameModel) -> (GameModel, Option<Seq<char>>) {
    if !room_for(game, Side::Player, Action::EndTurn) {
        (game, Some(full_text()))
    } else {
        match preview_spec(game, Side::Player, Action::EndTurn) {
            Err(error) => (game, Some(error_text(error))),
            Ok(_) => {
                let mid = apply_spec(game, Side::Player, Action::EndTurn);
                match preview_spec(mid, Side::Dominion, Action::EndTurn) {
                    Err(error) => (mid, Some(error_text(error))),
                    Ok(_) => (apply_spec(mid, Side::Dominion, Action::EndTurn), None),
                }
            },
        }
    }
}

/// Nothing of the session changed but, perhaps, the game, the panel's
/// selection and the message.
pub open spec fn same_view(before: Shell, after: Shell) -> bool {
    &&& after.screen == before.screen
    &&& after.focus == before.focus
    &&& after.details_tab == before.details_tab
    &&& after.selected_fleet == before.selected_fleet
    &&& after.right_press == before.right_press
    &&& after.right_dragged == before.right_dragged
    &&& after.focusable@ == before.focusable@
}

/// Nothing of the session changed.
pub open spec fn kept(before: Shell, after: Shell) -> bool {
    &&& same_view(before, after)
    &&& after.game@ == before.game@
    &&& after.selected == before.selected
    &&& after.message == before.message
}

/// A fresh game from `seed` on the sector map, with nothing selected, no
/// focus and no message; its chart counts on from the last game's versions.
pub open spec fn started(before: Shell, after: Shell, seed: u64) -> bool {
    &&& after.screen == Screen::Sector
    &&& after.game@ == start_spec(seed, before.game@.versions)
    &&& after.focus is None
    &&& after.selected is None
    &&& after.selected_fleet is None
    &&& after.message is None
    &&& after.right_press is None
    &&& !after.right_dragged
    &&& after.details_tab == 0
    &&& after.focusable@ == sector_ring()
}

/// Back on the main menu with no focus and no message; the game and the
/// selection wait for a return.
pub open spec fn left(before: Shell, after: Shell) -> bool {
    &&& after.screen == Screen::MainMenu
    &&& after.focus is None
    &&& after.message is None
    &&& after.game@ == before.game@
    &&& after.selected == before.selected
    &&& after.selected_fleet == before.selected_fleet
    &&& after.details_tab == before.details_tab
    &&& after.right_press == before.right_press
    &&& after.right_dragged == before.right_dragged
    &&& after.focusable@ == menu_ring()
}

/// One round from the End Turn button, as `round_spec` says, and nothing
/// else of the session changed.
pub open spec fn round_played(before: Shell, after: Shell) -> bool {
    &&& (after.game@, message_text(after.message)) == round_spec(before.game@)
    &&& same_view(before, after)
    &&& after.selected == before.selected
}

/// The player's `action` went through the rules: on success the game is the
/// game after it, on failure it is untouched and the message says why.
pub open spec fn acted(before: Shell, after: Shell, action: Action) -> bool {
    let result = preview_spec(before.game@, Side::Player, action);
    &&& message_text(after.message) == outcome_text(result)
    &&& result is Ok ==> after.game@ == apply_spec(before.game@, Side::Player, action)
    &&& result is Err ==> after.game@ == before.game@
    &&& same_view(before, after)
    &&& after.selected == before.selected
}

/// Ship `fleet_id` was ordered toward `destination`.
pub open spec fn ordered(before: Shell, after: Shell, fleet_id: u32, destination: Point) -> bool {
    acted(before, after, Action::MoveFleet { fleet_id, destination })
}

/// A click on `planet`: with a ship selected it is a destination, not a page;
/// otherwise the planet's panel opens on its first tab.
pub open spec fn planet_clicked(before: Shell, after: Shell, planet: usize) -> bool {
    match before.selected_fleet {
        Some(fleet_id) => ordered(before, after, fleet_id, planet_spec(planet as int).position),
        None => kept(
            Shell { selected: Some(Selection::Planet(planet)), details_tab: 0, message: None, ..before },
            after,
        ),
    }
}

/// Farlight has a ship with id `fleet_id`.
pub open spec fn own_ship(game: GameModel, fleet_id: u32) -> bool {
    exists|i: int| 0 <= i < game.fleets.len() && game.fleets[i].id == fleet_id && game.fleets[i].owner == Side::Player
}

/// A click on ship `fleet_id`: one of the player's own is selected to take
/// orders and the panel closes; anything else is left as it was.
pub open spec fn ship_clicked(before: Shell, after: Shell, fleet_id: u32) -> bool {
    if own_ship(before.game@, fleet_id) {
        kept(Shell { selected_fleet: Some(fleet_id), selected: None, message: None, ..before }, after)
    } else {
        kept(before, after)
    }
}

/// The Salvage button on `poi`: with no room for the loot nothing happens but
/// the message; on success the wreck's panel closes and the message names the
/// haul.
pub open spec fn salvaged(before: Shell, after: Shell, poi: u32) -> bool {
    let action = Action::Salvage { poi };
    let result = preview_spec(before.game@, Side::Player, action);
    &&& same_view(before, after)
    &&& !room_for(before.game@, Side::Player, action) ==> after.game@ == before.game@ && after.selected
        == before.selected && message_text(after.message) == Some(full_text())
    &&& room_for(before.game@, Side::Player, action) && result is Ok ==> after.game@ == apply_spec(
        before.game@,
        Side::Player,
        action,
    ) && after.selected is None && message_text(after.message) == Some(
        salvage_text(salvage_spec(before.game@, poi).0),
    )
    &&& room_for(before.game@, Side::Player, action) && result is Err ==> after.game@ == before.game@
        && after.selected == before.selected && message_text(after.message) == outcome_text(result)
}

/// The session after pressing `widget`. On the main menu only Start Game
/// works; on the sector map every other widget does what a click on it does.
pub open spec fn activated(before: Shell, after: Shell, widget: Widget, seed: u64) -> bool {
    if before.screen == Screen::MainMenu {
        if widget == Widget::StartGame {
            started(before, after, seed)
        } else {
            kept(before, after)
        }
    } else {
        match widget {
            Widget::StartGame => kept(before, after),
            Widget::Menu => left(before, after),
            Widget::EndTurn => round_played(before, after),
            Widget::Planet(planet) => if planet < PLANET_COUNT {
                planet_clicked(before, after, planet)
            } else {
                kept(before, after)
            },
            Widget::Ship(fleet_id) => ship_clicked(before, after, fleet_id),
            Widget::DetailsTab(tab) => kept(Shell { details_tab: tab, ..before }, after),
            Widget::ClosePanel => kept(Shell { selected: None, ..before }, after),
            Widget::Secure(planet) => acted(before, after, Action::SecurePlanet { planet }),
            Widget::Build(kind) => acted(before, after, Action::BuildShip { kind }),
            Widget::Salvage(poi) => salvaged(before, after, poi),
        }
    }
}

/// The session after Escape: on the sector map it drops the selected ship,
/// or else closes the panel, or else returns to the menu.
pub open spec fn escaped(before: Shell, after: Shell) -> bool {
    if before.screen != Screen::Sector {
        kept(before, after)
    } else if before.selected_fleet is Some {
        kept(Shell { selected_fleet: None, ..before }, after)
    } else if before.selected is Some {
        kept(Shell { selected: None, ..before }, after)
    } else {
        left(before, after)
    }
}

/// The session after a key went down: Tab moves only the focus, Enter and
/// Space press the focused widget, a fresh Escape steps back, and anything
/// else changes nothing.
pub open spec fn key_spec(before: Shell, after: Shell, press: KeyPress, seed: u64) -> bool {
    match press.key {
        Key::Tab => kept(Shell { focus: next_focus(before.focusable@, before.focus, press.shift), ..before }, after),
        Key::Enter | Key::Space => match before.focus {
            Some(widget) => activated(before, after, widget, seed),
            None => kept(before, after),
        },
        Key::Escape => if press.repeat {
            kept(before, after)
        } else {
            escaped(before, after)
        },
        Key::Other => kept(before, after),
    }
}

impl Shell {
    pub open spec fn wf(&self) -> bool {
        self.game@.wf()
    }

    /// The main menu over a game from `seed`.
    pub fn new(seed: u64) -> (shell: Shell)
        ensures
            shell.wf(),
            shell.screen == Screen::MainMenu,
            shell.focus is None,
            shell.game@ == start_spec(seed, FIRST_VERSION),
            shell.selected is None,
            shell.selected_fleet is None,
            shell.message is None,
            shell.details_tab == 0,
            shell.right_press is None,
            !shell.right_dragged,
            shell.focusable@ == menu_ring(),
    {
        Shell {
            screen: Screen::MainMenu,
            focus: None,
            game: Game::new(seed),
            selected: None,
            details_tab: 0,
            selected_fleet: None,
            right_press: None,
            right_dragged: false,
            message: None,
            focusable: Self::ring_of(Screen::MainMenu),
        }
    }

    /// A screen's buttons, before anything else is drawn on it.
    fn ring_of(screen: Screen) -> (ring: Vec<Widget>)
        ensures
            ring@ == (match screen {
                Screen::MainMenu => menu_ring(),
                Screen::Sector => sector_ring(),
            }),
    {
        let mut ring: Vec<Widget> = Vec::new();
        match screen {
            Screen::MainMenu => ring.push(Widget::StartGame),
            Screen::Sector => {
                ring.push(Widget::Menu);
                ring.push(Widget::EndTurn);
            },
        }
        assert(ring@ =~= (match screen {
            Screen::MainMenu => menu_ring(),
            Screen::Sector => sector_ring(),
        }));
        ring
    }

    /// What the screen drew this frame that takes the keyboard focus, in Tab order.
    pub fn set_focusable(&mut self, ring: Vec<Widget>)
        requires
            old(self).wf(),
        ensures
            final(self).wf(),
            final(self).focusable@ == ring@,
            kept(Shell { focusable: final(self).focusable, ..*old(self) }, *final(self)),
    {
        self.focusable = ring;
    }

    /// Where `widget` first stands in the focus ring.
    fn position(&self, widget: Widget) -> (k: Option<usize>)
        ensures
            match k {
                Some(i) => i as int == find_from(self.focusable@, widget, 0) && 0 <= i < self.focusable@.len(),
                None => find_from(self.focusable@, widget, 0) == -1,
            },
    {
        let mut k: usize = 0;
        while k < self.focusable.len()
            invariant
                k <= self.focusable@.len(),
                find_from(self.focusable@, widget, 0) == find_from(self.focusable@, widget, k as int),
            decreases self.focusable@.len() - k,
        {
            if self.focusable[k] == widget {
                return Some(k);
            }
            k += 1;
        }
        None
    }

    /// Where Tab (or Shift+Tab, `back`) moves the focus.
    fn focus_after_tab(&self, back: bool) -> (next: Option<Widget>)
        ensures
            next == next_focus(self.focusable@, self.focus, back),
    {
        let n = self.focusable.len();
        if n == 0 {
            return None;
        }
        let found = match self.focus {
            Some(widget) => self.position(widget),
            None => None,
        };
        match found {
            None => if back {
                Some(self.focusable[n - 1])
            } else {
                Some(self.focusable[0])
            },
            Some(k) => if back {
                Some(self.focusable[if k == 0 { n - 1 } else { k - 1 }])
            } else {
                Some(self.focusable[if k + 1 == n { 0 } else { k + 1 }])
            },
        }
    }

    fn say(&mut self, result: Result<Preview, ActionError>)
        ensures
            message_text(final(self).message) == outcome_text(result),
            same_view(*old(self), *final(self)),
            final(self).game@ == old(self).game@,
            final(self).selected == old(self).selected,
    {
        self.message = match result {
            Ok(_) => None,
            Err(error) => Some(String::from_str(error.message())),
        };
    }

    /// Start a fresh game on the sector map.
    pub fn start(&mut self, seed: u64)
        ensures
            final(self).wf(),
            started(*old(self), *final(self), seed),
    {
        self.game = Game::with_versions(seed, self.game.versions);
        self.screen = Screen::Sector;
        self.focus = None;
        self.selected = None;
        self.details_tab = 0;
        self.selected_fleet = None;
        self.right_press = None;
        self.right_dragged = false;
        self.message = None;
        self.focusable = Self::ring_of(Screen::Sector);
    }

    /// Back to the main menu.
    pub fn leave(&mut self)
        requires
            old(self).wf(),
        ensures
            final(self).wf(),
            left(*old(self), *final(self)),
    {
        self.screen = Screen::MainMenu;
        self.focus = None;
        self.message = None;
        self.focusable = Self::ring_of(Screen::MainMenu);
    }

    /// Drop the selected ship and close the panel.
    pub fn deselect(&mut self)
        requires
            old(self).wf(),
        ensures
            final(self).wf(),
            kept(Shell { selected_fleet: None, selected: None, message: None, ..*old(self) }, *final(self)),
    {
        self.selected_fleet = None;
        self.selected = None;
        self.message = None;
    }

    /// Escape: drop the selected ship, or else close the panel, or else
    /// return to the menu.
    pub fn escape(&mut self)
        requires
            old(self).wf(),
        ensures
            final(self).wf(),
            escaped(*old(self), *final(self)),
    {
        if self.screen != Screen::Sector {
            return;
        }
        if self.selected_fleet.is_some() {
            self.selected_fleet = None;
        } else if self.selected.is_some() {
            self.selected = None;
        } else {
            self.leave();
        }
    }

    /// End the player's turn and let the Dominion pass through the same rules.
    pub fn end_turn(&mut self)
        requires
            old(self).wf(),
        ensures
            final(self).wf(),
            round_played(*old(self), *final(self)),
    {
        if !has_room(&self.game, Side::Player, Action::EndTurn) {
            proof {
                reveal_strlit("The stockpile and the fleet registers are full.");
            }
            self.message = Some(String::from_str("The stockpile and the fleet registers are full."));
            return;
        }
        let first = execute(&mut self.game, Side::Player, Action::EndTurn);
        match first {
            Err(error) => {
                self.say(Err(error));
            },
            Ok(_) => {
                let second = execute(&mut self.game, Side::Dominion, Action::EndTurn);
                self.say(second);
            },
        }
    }

    /// A widget was clicked, or pressed from the keyboard. Start Game works
    /// on the main menu; on the sector map every other widget does what a
    /// click on it does.
    pub fn activate(&mut self, widget: Widget, seed: u64)
        requires
            old(self).wf(),
        ensures
            final(self).wf(),
            activated(*old(self), *final(self), widget, seed),
    {
        if self.screen == Screen::MainMenu {
            if widget == Widget::StartGame {
                self.start(seed);
            }
            return;
        }
        match widget {
            Widget::StartGame => {},
            Widget::Menu => self.leave(),
            Widget::EndTurn => self.end_turn(),
            Widget::Planet(planet) => if planet < PLANET_COUNT {
                self.click_planet(planet);
            },
            Widget::Ship(fleet_id) => self.click_ship(fleet_id),
            Widget::DetailsTab(tab) => self.choose_tab(tab),
            Widget::ClosePanel => self.close_panel(),
            Widget::Secure(planet) => self.secure(planet),
            Widget::Build(kind) => self.build(kind),
            Widget::Salvage(poi) => self.salvage(poi),
        }
    }

    /// A key went down: Tab and Shift+Tab walk the focus ring, Enter and
    /// Space press the focused widget, and Escape steps back.
    pub fn key(&mut self, press: KeyPress, seed: u64)
        requires
            old(self).wf(),
        ensures
            final(self).wf(),
            key_spec(*old(self), *final(self), press, seed),
    {
        match press.key {
            Key::Tab => {
                self.focus = self.focus_after_tab(press.shift);
            },
            Key::Enter | Key::Space => {
                if let Some(widget) = self.focus {
                    self.activate(widget, seed);
                }
            },
            Key::Escape => {
                if !press.repeat {
                    self.escape();
                }
            },
            Key::Other => {},
        }
    }

    /// Send the selected ship toward `destination`.
    pub fn order(&mut self, fleet_id: u32, destination: Point)
        requires
            old(self).wf(),
        ensures
            final(self).wf(),
            ordered(*old(self), *final(self), fleet_id, destination),
    {
        let result = execute(&mut self.game, Side::Player, Action::MoveFleet { fleet_id, destination });
        self.say(result);
    }

    /// A ship was clicked: the player's ships are selected to take orders.
    pub fn click_ship(&mut self, fleet_id: u32)
        requires
            old(self).wf(),
        ensures
            final(self).wf(),
            ship_clicked(*old(self), *final(self), fleet_id),
    {
        let mut i: usize = 0;
        while i < self.game.fleets.len()
            invariant
                self.wf(),
                kept(*old(self), *self),
                i <= self.game.fleets@.len(),
                forall|j: int| 0 <= j < i ==> !(self.game@.fleets[j].id == fleet_id && self.game@.fleets[j].owner
                    == Side::Player),
            decreases self.game.fleets@.len() - i,
        {
            if self.game.fleets[i].id == fleet_id && self.game.fleets[i].owner == Side::Player {
                assert(self.game@.fleets[i as int].id == fleet_id);
                self.selected_fleet = Some(fleet_id);
                self.selected = None;
                self.message = None;
                return;
            }
            i += 1;
        }
    }

    /// A planet was clicked: with a ship selected it is a destination, not a page.
    pub fn click_planet(&mut self, planet: usize)
        requires
            old(self).wf(),
            planet < PLANET_COUNT,
        ensures
            final(self).wf(),
            planet_clicked(*old(self), *final(self), planet),
    {
        match self.selected_fleet {
            Some(fleet_id) => {
                let table = planets();
                let position = table[planet].position;
                assert(position == planet_spec(planet as int).position);
                self.order(fleet_id, position);
            },
            None => {
                self.selected = Some(Selection::Planet(planet));
                self.details_tab = 0;
                self.message = None;
            },
        }
    }

    /// A point of interest was clicked: with a ship selected it is a
    /// destination, otherwise its panel opens.
    pub fn click_poi(&mut self, poi: u32)
        requires
            old(self).wf(),
        ensures
            final(self).wf(),
            !has_poi(old(self).game@.pois, poi) ==> kept(*old(self), *final(self)),
            has_poi(old(self).game@.pois, poi) ==> (old(self).selected_fleet matches Some(fleet_id) ==> ordered(
                *old(self),
                *final(self),
                fleet_id,
                old(self).game@.pois[poi_index(old(self).game@.pois, poi)].position,
            )),
            has_poi(old(self).game@.pois, poi) && old(self).selected_fleet is None ==> kept(
                Shell { selected: Some(Selection::Poi(poi)), details_tab: 0, message: None, ..*old(self) },
                *final(self),
            ),
    {
        match self.game.poi(poi) {
            None => {},
            Some(found) => match self.selected_fleet {
                Some(fleet_id) => self.order(fleet_id, found.position),
                None => {
                    self.selected = Some(Selection::Poi(poi));
                    self.details_tab = 0;
                    self.message = None;
                },
            },
        }
    }

    /// Empty map space was clicked at `at`: that closes an open panel, or else
    /// sends the selected ship there.
    pub fn click_map(&mut self, at: Point)
        requires
            old(self).wf(),
        ensures
            final(self).wf(),
            old(self).selected is Some ==> kept(Shell { selected: None, ..*old(self) }, *final(self)),
            old(self).selected is None && old(self).selected_fleet is None ==> kept(*old(self), *final(self)),
            old(self).selected is None ==> (old(self).selected_fleet matches Some(fleet_id) ==> ordered(
                *old(self),
                *final(self),
                fleet_id,
                at,
            )),
    {
        if self.selected.is_some() {
            self.selected = None;
        } else if let Some(fleet_id) = self.selected_fleet {
            self.order(fleet_id, at);
        }
    }

    /// The right button went down at `(x, y)`.
    pub fn right_press(&mut self, x: i64, y: i64)
        requires
            old(self).wf(),
        ensures
            final(self).wf(),
            kept(Shell { right_press: Some((x, y)), right_dragged: false, ..*old(self) }, *final(self)),
    {
        self.right_press = Some((x, y));
        self.right_dragged = false;
    }

    /// The pointer moved to `(x, y)`. A held right button that has gone
    /// further than `threshold` pixels from its press is dragging.
    pub fn pointer_moved(&mut self, x: i64, y: i64, threshold: i64)
        requires
            old(self).wf(),
            0 <= threshold <= 0x1000_0000,
            -0x1000_0000 <= x <= 0x1000_0000,
            -0x1000_0000 <= y <= 0x1000_0000,
            old(self).right_press matches Some((px, py)) ==> -0x1000_0000 <= px <= 0x1000_0000 && -0x1000_0000
                <= py <= 0x1000_0000,
        ensures
            final(self).wf(),
            final(self).right_press == old(self).right_press,
            final(self).right_dragged == (old(self).right_dragged || (old(self).right_press matches Some((px, py)) && (
            x - px) * (x - px) + (y - py) * (y - py) > threshold * threshold)),
            kept(Shell { right_dragged: final(self).right_dragged, ..*old(self) }, *final(self)),
    {
        if let Some((px, py)) = self.right_press {
            let dx = x - px;
            let dy = y - py;
            assert(dx * dx <= 0x2000_0000 * 0x2000_0000) by (nonlinear_arith)
                requires
                    -0x2000_0000 <= dx <= 0x2000_0000,
            ;
            assert(dy * dy <= 0x2000_0000 * 0x2000_0000) by (nonlinear_arith)
                requires
                    -0x2000_0000 <= dy <= 0x2000_0000,
            ;
            assert(threshold * threshold <= 0x1000_0000 * 0x1000_0000) by (nonlinear_arith)
                requires
                    0 <= threshold <= 0x1000_0000,
            ;
            assert(0 <= dx * dx && 0 <= dy * dy) by (nonlinear_arith);
            if dx * dx + dy * dy > threshold * threshold {
                self.right_dragged = true;
            }
        }
    }

    /// The right button came up: without a drag it was a click, which drops
    /// the selection.
    pub fn right_release(&mut self)
        requires
            old(self).wf(),
        ensures
            final(self).wf(),
            old(self).right_press is Some && !old(self).right_dragged ==> kept(
                Shell { right_press: None, selected_fleet: None, selected: None, message: None, ..*old(self) },
                *final(self),
            ),
            !(old(self).right_press is Some && !old(self).right_dragged) ==> kept(
                Shell { right_press: None, ..*old(self) },
                *final(self),
            ),
    {
        let pressed = self.right_press.is_some();
        self.right_press = None;
        if pressed && !self.right_dragged {
            self.deselect();
        }
    }

    /// Close the details panel.
    pub fn close_panel(&mut self)
        requires
            old(self).wf(),
        ensures
            final(self).wf(),
            kept(Shell { selected: None, ..*old(self) }, *final(self)),
    {
        self.selected = None;
    }

    /// Switch the panel's tab.
    pub fn choose_tab(&mut self, tab: usize)
        requires
            old(self).wf(),
        ensures
            final(self).wf(),
            kept(Shell { details_tab: tab, ..*old(self) }, *final(self)),
    {
        self.details_tab = tab;
    }

    /// The panel's Secure Planet button.
    pub fn secure(&mut self, planet: usize)
        requires
            old(self).wf(),
        ensures
            final(self).wf(),
            acted(*old(self), *final(self), Action::SecurePlanet { planet }),
    {
        let result = execute(&mut self.game, Side::Player, Action::SecurePlanet { planet });
        self.say(result);
    }

    /// The Shipyard tab's build button.
    pub fn build(&mut self, kind: ShipKind)
        requires
            old(self).wf(),
        ensures
            final(self).wf(),
            acted(*old(self), *final(self), Action::BuildShip { kind }),
    {
        let result = execute(&mut self.game, Side::Player, Action::BuildShip { kind });
        self.say(result);
    }

    /// The panel's Salvage button: on success the wreck's panel closes with
    /// it and the message names the haul.
    #[verifier::rlimit(40)]
    pub fn salvage(&mut self, poi: u32)
        requires
            old(self).wf(),
        ensures
            final(self).wf(),
            salvaged(*old(self), *final(self), poi),
    {
        if !has_room(&self.game, Side::Player, Action::Salvage { poi }) {
            proof {
                reveal_strlit("The stockpile and the fleet registers are full.");
            }
            self.message = Some(String::from_str("The stockpile and the fleet registers are full."));
            return;
        }
        let before = self.game.stockpile;
        let result = execute(&mut self.game, Side::Player, Action::Salvage { poi });
        match result {
            Ok(_) => {
                let ghost loot = salvage_spec(old(self).game@, poi).0;
                let after = self.game.stockpile;
                assert(after == crate::economy::sum(before, loot));
                let text = salvage_message(
                    Resources { alloys: after.alloys - before.alloys, electronics: after.electronics - before.electronics },
                );
                self.message = Some(text);
                self.selected = None;
            },
            Err(error) => self.say(Err(error)),
        }
    }
}

/// A fresh seed for every game from the wall clock's nanoseconds since the
/// Unix epoch: their low 64 bits.
pub fn clock_seed(nanos: u128) -> (seed: u64)
    ensures
        seed == nanos % 0x1_0000_0000_0000_0000,
{
    (nanos % 0x1_0000_0000_0000_0000) as u64
}

} // verus!
