//! The interactive menu: what each key, each answer and each finished command
//! leads to.
use crate::binding::normalize_key;
use crate::command::EXIT_INTERRUPTED;
use crate::error;
use crate::error::config_error;
use crate::keys;
use crate::keys::{ctrl_c, key_character, key_text, KeyCode, KeyEvent};
use crate::menu;
use crate::menu::{MenuConfig, MenuItem};
use crate::order;
use crate::order::ordered_items;
use crate::recent;
use crate::recent::RecentStore;
use crate::render;
use crate::render::{render, Draw, Screen};
use crate::text;
use crate::text::{joined, push_signed_decimal};
use vstd::prelude::*;

verus! {

/// What the session waits for. `T` is the kind of text in it.
#[derive(Debug, PartialEq, Eq)]
pub enum Phase<T> {
    /// A key in the menu.
    Choosing,
    /// The answer to whether the item is to run.
    Confirming { item: usize },
    /// The end of the item's command.
    Running { item: usize },
    /// How storing the history went.
    Storing { item: usize, status: i32, interrupted: bool },
    /// A key after the item's command succeeded. `complaint` says why the history
    /// was not stored.
    Returning { item: usize, complaint: Option<T> },
    /// Nothing: it is over.
    Over,
}

/// What happened.
#[derive(Debug, PartialEq, Eq)]
pub enum Event<T> {
    /// A key was pressed while a page holds `page` items.
    Key { key: KeyEvent, page: usize },
    /// The command ended; `interrupted` says whether Ctrl+C was seen meanwhile.
    Ended { status: i32, interrupted: bool },
    /// The history was stored, or there was a complaint.
    Stored { complaint: Option<T> },
}

/// What is to be done next.
#[derive(Debug, PartialEq, Eq)]
pub enum Action<T> {
    /// Draw the menu and wait for a key.
    AwaitKey,
    /// Draw the menu, ask whether the item is to run, and wait for a key.
    AskToRun { item: usize },
    /// Leave the menu, after drawing it where `redraw` says so, and run the item's
    /// command.
    Run { item: usize, redraw: bool },
    /// Store this text as the history.
    Store { contents: T },
    /// Show the menu's screen, ask for a key, and wait for it.
    AskToReturn,
    /// Report the complaint, if any, and exit.
    Exit { status: i32, complaint: Option<T> },
}

/// The interactive menu between two events.
#[derive(Debug)]
pub struct Session {
    /// The place of the selected item in the listing.
    pub selected: usize,
    pub search_mode: bool,
    pub query: String,
    /// What is reported in place of the status, and whether it is a failure.
    pub message: Option<(String, bool)>,
    /// The items that are listed.
    pub ordered: Vec<usize>,
    pub recents: RecentStore,
    pub phase: Phase<String>,
}

// ---------------------------------------------------------------------------
// The model
// ---------------------------------------------------------------------------
/// A session with the contents of its texts.
pub struct State {
    pub selected: int,
    pub search_mode: bool,
    pub query: Seq<char>,
    pub message: Option<(Seq<char>, bool)>,
    pub ordered: Seq<usize>,
    pub recents: Seq<Seq<char>>,
    pub phase: Phase<Seq<char>>,
}

pub open spec fn phase_contents(phase: Phase<String>) -> Phase<Seq<char>> {
    match phase {
        Phase::Choosing => Phase::Choosing,
        Phase::Confirming { item } => Phase::Confirming { item },
        Phase::Running { item } => Phase::Running { item },
        Phase::Storing { item, status, interrupted } => Phase::Storing {
            item,
            status,
            interrupted,
        },
        Phase::Returning { item, complaint } => Phase::Returning {
            item,
            complaint: text::optional_text(complaint),
        },
        Phase::Over => Phase::Over,
    }
}

pub open spec fn event_contents(event: Event<String>) -> Event<Seq<char>> {
    match event {
        Event::Key { key, page } => Event::Key { key, page },
        Event::Ended { status, interrupted } => Event::Ended { status, interrupted },
        Event::Stored { complaint } => Event::Stored { complaint: text::optional_text(complaint) },
    }
}

pub open spec fn action_contents(action: Action<String>) -> Action<Seq<char>> {
    match action {
        Action::AwaitKey => Action::AwaitKey,
        Action::AskToRun { item } => Action::AskToRun { item },
        Action::Run { item, redraw } => Action::Run { item, redraw },
        Action::Store { contents } => Action::Store { contents: contents@ },
        Action::AskToReturn => Action::AskToReturn,
        Action::Exit { status, complaint } => Action::Exit {
            status,
            complaint: text::optional_text(complaint),
        },
    }
}

pub open spec fn message_contents(message: Option<(String, bool)>) -> Option<(Seq<char>, bool)> {
    match message {
        Some((report, failed)) => Some((report@, failed)),
        None => None,
    }
}

impl Session {
    /// The session with the contents of its texts.
    pub open spec fn state(self) -> State {
        State {
            selected: self.selected as int,
            search_mode: self.search_mode,
            query: self.query@,
            message: message_contents(self.message),
            ordered: self.ordered@,
            recents: self.recents.list(),
            phase: phase_contents(self.phase),
        }
    }
}

/// The last place in a listing; 0 in an empty one.
pub open spec fn last_place(ordered: Seq<usize>) -> int {
    if ordered.len() == 0 {
        0
    } else {
        ordered.len() - 1
    }
}

/// The first place from `from` on that lists `item`; 0 where there is none.
pub open spec fn place_of(ordered: Seq<usize>, item: usize, from: int) -> int
    decreases ordered.len() - from,
{
    if from < 0 || from >= ordered.len() {
        0
    } else if ordered[from] == item {
        from
    } else {
        place_of(ordered, item, from + 1)
    }
}

/// The first item from `from` on that is bound to a key; `None` where there is
/// none.
pub open spec fn bound_item(items: Seq<MenuItem>, key: Seq<char>, from: int) -> Option<usize>
    decreases items.len() - from,
{
    if from < 0 || from >= items.len() {
        None
    } else if menu::normalized_binding(items[from].key) == Some(key) {
        Some(from as usize)
    } else {
        bound_item(items, key, from + 1)
    }
}

/// Back to choosing: the items are listed anew, and the selection stays within
/// them.
pub open spec fn shown_again(config: MenuConfig, state: State) -> (State, Action<Seq<char>>) {
    let ordered = order::listing(config.items@, state.query, state.recents);
    (
        State {
            ordered,
            selected: if state.selected < last_place(ordered) {
                state.selected
            } else {
                last_place(ordered)
            },
            phase: Phase::Choosing,
            ..state
        },
        Action::AwaitKey,
    )
}

/// The end.
pub open spec fn over(state: State, status: i32, complaint: Option<Seq<char>>) -> (
    State,
    Action<Seq<char>>,
) {
    (State { phase: Phase::Over, ..state }, Action::Exit { status, complaint })
}

/// An item was picked: it has to be confirmed, or runs at once.
pub open spec fn picked(config: MenuConfig, state: State, item: usize) -> (
    State,
    Action<Seq<char>>,
) {
    if config.items@[item as int].confirm {
        (State { phase: Phase::Confirming { item }, ..state }, Action::AskToRun { item })
    } else {
        (State { phase: Phase::Running { item }, ..state }, Action::Run { item, redraw: true })
    }
}

/// Where a navigation key leads; `None` for other keys.
pub open spec fn moved(state: State, code: KeyCode, page: usize) -> Option<int> {
    let last = last_place(state.ordered);
    match code {
        KeyCode::Up => Some(
            if state.selected == 0 {
                0
            } else {
                state.selected - 1
            },
        ),
        KeyCode::Down => Some(
            if state.selected + 1 < state.ordered.len() {
                state.selected + 1
            } else {
                state.selected
            },
        ),
        KeyCode::PageUp => Some(
            if state.selected < page {
                0
            } else {
                state.selected - page
            },
        ),
        KeyCode::PageDown => Some(
            if state.selected + page < last {
                state.selected + page
            } else {
                last
            },
        ),
        KeyCode::Home => Some(0),
        KeyCode::End => Some(last),
        _ => None,
    }
}

/// A key in search mode.
pub open spec fn searched(config: MenuConfig, state: State, key: KeyEvent, page: usize) -> (
    State,
    Action<Seq<char>>,
) {
    if let Some(place) = moved(state, key.code, page) {
        shown_again(config, State { selected: place, ..state })
    } else if key.code is Esc {
        if state.query.len() == 0 {
            shown_again(config, State { search_mode: false, selected: 0, ..state })
        } else {
            shown_again(config, State { query: Seq::empty(), selected: 0, ..state })
        }
    } else if key.code is Backspace {
        let query = if state.query.len() == 0 {
            state.query
        } else {
            state.query.drop_last()
        };
        shown_again(config, State { query, selected: 0, ..state })
    } else if key.code is Enter {
        if state.selected < state.ordered.len() {
            picked(config, state, state.ordered[state.selected])
        } else {
            shown_again(config, state)
        }
    } else {
        match keys::typed(key) {
            Some(character) => shown_again(
                config,
                State { query: state.query.push(character), selected: 0, ..state },
            ),
            None => shown_again(config, state),
        }
    }
}

/// A key in browse mode.
pub open spec fn browsed(config: MenuConfig, state: State, key: KeyEvent, page: usize) -> (
    State,
    Action<Seq<char>>,
) {
    if key.code is Esc || keys::text_of(key) == Some(text::lowered(config.quit_key@)) {
        over(state, 0, None)
    } else if let Some(place) = moved(state, key.code, page) {
        shown_again(config, State { selected: place, ..state })
    } else if key.code == KeyCode::Char('/') {
        shown_again(
            config,
            State { search_mode: true, query: Seq::empty(), selected: 0, ..state },
        )
    } else if key.code == KeyCode::Char('k') {
        shown_again(config, State { selected: moved(state, KeyCode::Up, page)->0, ..state })
    } else if key.code == KeyCode::Char('j') {
        shown_again(config, State { selected: moved(state, KeyCode::Down, page)->0, ..state })
    } else if key.code is Enter {
        if state.selected < state.ordered.len() {
            picked(config, state, state.ordered[state.selected])
        } else {
            shown_again(config, state)
        }
    } else {
        let bound = match keys::text_of(key) {
            Some(pressed) => bound_item(config.items@, pressed, 0),
            None => None,
        };
        match bound {
            Some(item) => picked(
                config,
                State { selected: place_of(state.ordered, item, 0), ..state },
                item,
            ),
            None => shown_again(
                config,
                State { message: Some(("Unknown key. Press / to search."@, true)), ..state },
            ),
        }
    }
}

/// The item's command has ended and the history is stored as far as it can be.
pub open spec fn completed(
    config: MenuConfig,
    state: State,
    item: usize,
    status: i32,
    interrupted: bool,
    complaint: Option<Seq<char>>,
) -> (State, Action<Seq<char>>) {
    let label = config.items@[item as int].label@;
    let back = State {
        selected: place_of(
            order::listing(config.items@, state.query, state.recents),
            item,
            0,
        ),
        ..state
    };
    if !config.loop_menu {
        over(
            state,
            status,
            match complaint {
                Some(reason) => Some(not_saved(reason)),
                None => None,
            },
        )
    } else if interrupted {
        shown_again(
            config,
            State {
                message: Some(("'"@ + label + "' interrupted."@ + also_not_saved(complaint), true)),
                ..back
            },
        )
    } else if status != 0 {
        shown_again(
            config,
            State {
                message: Some(
                    (
                        "'"@ + label + "' failed with status "@ + text::signed_decimal(
                            status as int,
                        ) + "."@ + also_not_saved(complaint),
                        true,
                    ),
                ),
                ..back
            },
        )
    } else {
        (State { phase: Phase::Returning { item, complaint }, ..back }, Action::AskToReturn)
    }
}

/// What is reported where the history could not be stored.
pub open spec fn not_saved(reason: Seq<char>) -> Seq<char> {
    "Command completed; recent state was not saved: "@ + reason
}

/// What is added to another report where the history could not be stored.
pub open spec fn also_not_saved(complaint: Option<Seq<char>>) -> Seq<char> {
    match complaint {
        Some(reason) => " Recent state was not saved: "@ + reason,
        None => Seq::empty(),
    }
}

/// The event is one that the session waits for.
pub open spec fn awaited(phase: Phase<Seq<char>>, event: Event<Seq<char>>) -> bool {
    match phase {
        Phase::Choosing => event is Key,
        Phase::Confirming { .. } => event is Key,
        Phase::Running { .. } => event is Ended,
        Phase::Storing { .. } => event is Stored,
        Phase::Returning { .. } => event is Key,
        Phase::Over => false,
    }
}

/// What an event leads to: the next state, and what is to be done. What was
/// reported before is gone after the next key in the menu.
pub open spec fn next(
    config: MenuConfig,
    dry_run: bool,
    state: State,
    event: Event<Seq<char>>,
) -> (State, Action<Seq<char>>) {
    match (state.phase, event) {
        (Phase::Choosing, Event::Key { key, page }) => {
            let fresh = State { message: None, ..state };
            if keys::interrupts(key) {
                over(fresh, EXIT_INTERRUPTED, None)
            } else if state.search_mode {
                searched(config, fresh, key, page)
            } else {
                browsed(config, fresh, key, page)
            }
        },
        (Phase::Confirming { item }, Event::Key { key, .. }) => {
            if keys::interrupts(key) {
                over(state, EXIT_INTERRUPTED, None)
            } else if keys::text_of(key) == Some("y"@) {
                (
                    State { phase: Phase::Running { item }, ..state },
                    Action::Run { item, redraw: false },
                )
            } else {
                shown_again(config, State { message: Some(("Cancelled."@, false)), ..state })
            }
        },
        (Phase::Running { item }, Event::Ended { status, interrupted }) => {
            let stopped = interrupted || status == EXIT_INTERRUPTED;
            if dry_run {
                completed(config, state, item, status, stopped, None)
            } else {
                let recents = recent::with_used(
                    state.recents,
                    config.items@[item as int].stable_id@,
                );
                (
                    State {
                        recents,
                        phase: Phase::Storing { item, status, interrupted: stopped },
                        ..state
                    },
                    Action::Store { contents: recent::stored(recents) },
                )
            }
        },
        (Phase::Storing { item, status, interrupted }, Event::Stored { complaint }) => completed(
            config,
            state,
            item,
            status,
            interrupted,
            complaint,
        ),
        (Phase::Returning { item, complaint }, Event::Key { key, .. }) => {
            if keys::interrupts(key) {
                over(state, EXIT_INTERRUPTED, None)
            } else if key.code is Esc {
                over(state, 0, None)
            } else {
                let message = match complaint {
                    Some(reason) => (not_saved(reason), true),
                    None => (
                        "'"@ + config.items@[item as int].label@ + "' completed."@,
                        false,
                    ),
                };
                shown_again(config, State { message: Some(message), ..state })
            }
        },
        _ => (state, Action::AwaitKey),
    }
}

/// What holds between any two events.
pub open spec fn sensible(config: MenuConfig, state: State) -> bool {
    &&& state.ordered.len() <= config.items@.len()
    &&& forall|i: int|
        0 <= i < state.ordered.len() ==> #[trigger] state.ordered[i] < config.items@.len()
    &&& 0 <= state.selected <= last_place(state.ordered) || state.phase is Returning
        || state.phase is Over
    &&& 0 <= state.selected < config.items@.len()
    &&& state.phase is Choosing || state.phase is Confirming ==> state.ordered == order::listing(
        config.items@,
        state.query,
        state.recents,
    )
    &&& !state.search_mode ==> state.query.len() == 0
    &&& match state.phase {
        Phase::Confirming { item } => is_listed(config, state, item),
        Phase::Running { item } => is_listed(config, state, item),
        Phase::Storing { item, .. } => is_listed(config, state, item),
        Phase::Returning { item, .. } => is_listed(config, state, item),
        _ => true,
    }
}

/// The item is among those that are listed.
pub open spec fn is_listed(config: MenuConfig, state: State, item: usize) -> bool {
    order::listed(config.items@, state.query, state.recents, item as int)
}

impl Session {
    /// What holds of a session between any two events.
    pub open spec fn well_formed(self, config: MenuConfig) -> bool {
        sensible(config, self.state()) && self.recents.well_formed()
    }
}

// ---------------------------------------------------------------------------
// The session
// ---------------------------------------------------------------------------
proof fn lemma_place_of(ordered: Seq<usize>, item: usize, from: int)
    requires
        0 <= from <= ordered.len(),
    ensures
        0 <= place_of(ordered, item, from) <= last_place(ordered),
        ordered.contains(item) && (forall|i: int| 0 <= i < from ==> ordered[i] != item)
            ==> ordered[place_of(ordered, item, from)] == item,
    decreases ordered.len() - from,
{
    if from < ordered.len() && ordered[from] != item {
        lemma_place_of(ordered, item, from + 1);
    } else if from == ordered.len() && ordered.contains(item) {
        let i = choose|i: int| 0 <= i < ordered.len() && ordered[i] == item;
        assert(ordered[i] == item);
    }
}

fn find_place(ordered: &Vec<usize>, item: usize) -> (place: usize)
    ensures
        place == place_of(ordered@, item, 0),
{
    let mut next: usize = 0;
    while next < ordered.len()
        invariant
            next <= ordered@.len(),
            place_of(ordered@, item, 0) == place_of(ordered@, item, next as int),
        decreases ordered@.len() - next,
    {
        if ordered[next] == item {
            return next;
        }
        next = next + 1;
    }
    0
}

fn find_bound_item(items: &Vec<MenuItem>, key: &String) -> (item: Option<usize>)
    ensures
        item == bound_item(items@, key@, 0),
        item matches Some(found) ==> found < items@.len(),
{
    let mut next: usize = 0;
    while next < items.len()
        invariant
            next <= items@.len(),
            bound_item(items@, key@, 0) == bound_item(items@, key@, next as int),
        decreases items@.len() - next,
    {
        if let Some(bound) = &items[next].key {
            if normalize_key(bound.as_str()) == *key {
                return Some(next);
            }
        }
        next = next + 1;
    }
    None
}

fn quoted(label: &String, rest: &str) -> (message: String)
    ensures
        message@ == "'"@ + label@ + rest@,
{
    let mut message = joined("'", label.as_str());
    message.append(rest);
    message
}

fn append_not_saved(message: &mut String, complaint: &Option<String>)
    ensures
        final(message)@ == old(message)@ + also_not_saved(text::optional_text(*complaint)),
{
    if let Some(reason) = complaint {
        message.append(" Recent state was not saved: ");
        message.append(reason.as_str());
    }
    assert(message@ == old(message)@ + also_not_saved(text::optional_text(*complaint)));
}

/// The menu needs a terminal for its keys and one to be drawn on.
pub fn check_terminal(input_is_terminal: bool, output_is_terminal: bool) -> (checked: Result<
    (),
    String,
>)
    ensures
        input_is_terminal && output_is_terminal ==> checked is Ok,
        !(input_is_terminal && output_is_terminal) ==> (checked matches Err(message) && message@
            == error::reported("interactive mode needs a terminal; use --print for scripts"@)),
{
    if !input_is_terminal || !output_is_terminal {
        return Err(config_error("interactive mode needs a terminal; use --print for scripts"));
    }
    Ok(())
}

impl Session {
    /// A session that shows the menu for the first time.
    pub fn start(config: &MenuConfig, recents: RecentStore) -> (session: Self)
        requires
            config.well_formed(),
            recents.well_formed(),
        ensures
            session.well_formed(*config),
            session.state() == (State {
                selected: 0,
                search_mode: false,
                query: Seq::empty(),
                message: None,
                ordered: order::listing(config.items@, Seq::empty(), recents.list()),
                recents: recents.list(),
                phase: Phase::Choosing,
            }),
    {
        let query = String::new();
        let ordered = ordered_items(config, query.as_str(), &recents);
        assert(query@ == Seq::<char>::empty());
        Session {
            selected: 0,
            search_mode: false,
            query,
            message: None,
            ordered,
            recents,
            phase: Phase::Choosing,
        }
    }

    /// Draws the menu as it is now.
    pub fn draw(&self, config: &MenuConfig, screen: Screen) -> (steps: Vec<Draw<String>>)
        requires
            self.well_formed(*config),
        ensures
            render::drawn(steps@) == render::picture(
                *config,
                render::Scene {
                    ordered: self.state().ordered,
                    selected: self.state().selected,
                    search_mode: self.state().search_mode,
                    query: self.state().query,
                    recents: self.state().recents,
                    message: self.state().message,
                },
                screen,
            ),
    {
        let message = match &self.message {
            Some((report, failed)) => Some((report.as_str(), *failed)),
            None => None,
        };
        render(
            config,
            &self.ordered,
            self.selected,
            self.search_mode,
            self.query.as_str(),
            &self.recents,
            message,
            screen,
        )
    }

    /// Lists the items anew and waits for a key.
    fn show_again(&mut self, config: &MenuConfig) -> (action: Action<String>)
        requires
            config.well_formed(),
            old(self).recents.well_formed(),
            !old(self).search_mode ==> old(self).query@.len() == 0,
        ensures
            (final(self).state(), action_contents(action)) == shown_again(
                *config,
                old(self).state(),
            ),
            final(self).well_formed(*config),
    {
        self.ordered = ordered_items(config, self.query.as_str(), &self.recents);
        let last: usize = if self.ordered.len() == 0 {
            0
        } else {
            self.ordered.len() - 1
        };
        if last <= self.selected {
            self.selected = last;
        }
        self.phase = Phase::Choosing;
        Action::AwaitKey
    }

    fn exit(&mut self, status: i32, complaint: Option<String>) -> (action: Action<String>)
        ensures
            (final(self).state(), action_contents(action)) == over(
                old(self).state(),
                status,
                text::optional_text(complaint),
            ),
            final(self).recents == old(self).recents,
    {
        self.phase = Phase::Over;
        Action::Exit { status, complaint }
    }

    fn pick(&mut self, config: &MenuConfig, item: usize) -> (action: Action<String>)
        requires
            item < config.items@.len(),
        ensures
            (final(self).state(), action_contents(action)) == picked(
                *config,
                old(self).state(),
                item,
            ),
            final(self).recents == old(self).recents,
    {
        if config.items[item].confirm {
            self.phase = Phase::Confirming { item };
            Action::AskToRun { item }
        } else {
            self.phase = Phase::Running { item };
            Action::Run { item, redraw: true }
        }
    }

    /// Where a navigation key leads.
    fn destination(&self, code: KeyCode, page: usize) -> (place: Option<usize>)
        requires
            self.selected <= last_place(self.ordered@),
        ensures
            match place {
                Some(found) => moved(self.state(), code, page) == Some(found as int),
                None => moved(self.state(), code, page) is None,
            },
    {
        let last: usize = if self.ordered.len() == 0 {
            0
        } else {
            self.ordered.len() - 1
        };
        match code {
            KeyCode::Up => Some(
                if self.selected == 0 {
                    0
                } else {
                    self.selected - 1
                },
            ),
            KeyCode::Down => Some(
                if self.selected < last {
                    self.selected + 1
                } else {
                    self.selected
                },
            ),
            KeyCode::PageUp => Some(
                if self.selected < page {
                    0
                } else {
                    self.selected - page
                },
            ),
            KeyCode::PageDown => Some(
                if page < last - self.selected {
                    self.selected + page
                } else {
                    last
                },
            ),
            KeyCode::Home => Some(0),
            KeyCode::End => Some(last),
            _ => None,
        }
    }

    /// A key in search mode.
    fn search(&mut self, config: &MenuConfig, key: KeyEvent, page: usize) -> (action: Action<String>)
        requires
            config.well_formed(),
            old(self).well_formed(*config),
            old(self).phase is Choosing,
            old(self).search_mode,
        ensures
            (final(self).state(), action_contents(action)) == searched(
                *config,
                old(self).state(),
                key,
                page,
            ),
            final(self).well_formed(*config),
    {
        if let Some(place) = self.destination(key.code, page) {
            self.selected = place;
            return self.show_again(config);
        }
        match key.code {
            KeyCode::Esc => {
                if self.query.as_str().is_empty() {
                    self.search_mode = false;
                } else {
                    self.query = String::new();
                    assert(self.query@ == Seq::<char>::empty());
                }
                self.selected = 0;
            },
            KeyCode::Backspace => {
                let _ = self.query.pop();
                self.selected = 0;
            },
            KeyCode::Enter => {
                if self.selected < self.ordered.len() {
                    let item = self.ordered[self.selected];
                    proof {
                        order::there_is_a_listing(config.items@, self.query@, self.recents.list());
                    }
                    return self.pick(config, item);
                }
            },
            _ => {
                if let Some(character) = key_character(key) {
                    self.query.push(character);
                    self.selected = 0;
                }
            },
        }
        self.show_again(config)
    }

    /// A key in browse mode.
    fn browse(&mut self, config: &MenuConfig, key: KeyEvent, page: usize) -> (action: Action<String>)
        requires
            config.well_formed(),
            old(self).well_formed(*config),
            old(self).phase is Choosing,
            !old(self).search_mode,
        ensures
            (final(self).state(), action_contents(action)) == browsed(
                *config,
                old(self).state(),
                key,
                page,
            ),
            final(self).well_formed(*config),
    {
        let pressed = key_text(key);
        let quits = match &pressed {
            Some(shown) => *shown == normalize_key(config.quit_key.as_str()),
            None => false,
        };
        if key.code == KeyCode::Esc || quits {
            return self.exit(0, None);
        }
        if let Some(place) = self.destination(key.code, page) {
            self.selected = place;
            return self.show_again(config);
        }
        match key.code {
            KeyCode::Char('/') => {
                self.search_mode = true;
                self.query = String::new();
                assert(self.query@ == Seq::<char>::empty());
                self.selected = 0;
            },
            KeyCode::Char('k') => {
                if self.selected > 0 {
                    self.selected = self.selected - 1;
                }
            },
            KeyCode::Char('j') => {
                if self.selected + 1 < self.ordered.len() {
                    self.selected = self.selected + 1;
                }
            },
            KeyCode::Enter => {
                if self.selected < self.ordered.len() {
                    let item = self.ordered[self.selected];
                    return self.pick(config, item);
                }
            },
            _ => {
                let bound = match &pressed {
                    Some(shown) => find_bound_item(&config.items, shown),
                    None => None,
                };
                match bound {
                    Some(item) => {
                        proof {
                            lemma_place_of(self.ordered@, item, 0);
                        }
                        self.selected = find_place(&self.ordered, item);
                        return self.pick(config, item);
                    },
                    None => {
                        self.message = Some(
                            ("Unknown key. Press / to search.".to_owned(), true),
                        );
                    },
                }
            },
        }
        self.show_again(config)
    }

    /// The item's command has ended and the history is stored as far as it can be.
    fn complete(
        &mut self,
        config: &MenuConfig,
        item: usize,
        status: i32,
        interrupted: bool,
        complaint: Option<String>,
    ) -> (action: Action<String>)
        requires
            config.well_formed(),
            old(self).well_formed(*config),
            is_listed(*config, old(self).state(), item),
        ensures
            (final(self).state(), action_contents(action)) == completed(
                *config,
                old(self).state(),
                item,
                status,
                interrupted,
                text::optional_text(complaint),
            ),
            final(self).well_formed(*config),
    {
        if !config.loop_menu {
            let report = match complaint {
                Some(reason) => Some(
                    joined("Command completed; recent state was not saved: ", reason.as_str()),
                ),
                None => None,
            };
            return self.exit(status, report);
        }
        let refreshed = ordered_items(config, self.query.as_str(), &self.recents);
        proof {
            lemma_place_of(refreshed@, item, 0);
        }
        self.selected = find_place(&refreshed, item);
        let label = &config.items[item].label;
        if interrupted {
            let mut message = quoted(label, "' interrupted.");
            append_not_saved(&mut message, &complaint);
            self.message = Some((message, true));
            return self.show_again(config);
        }
        if status != 0 {
            let mut message = quoted(label, "' failed with status ");
            push_signed_decimal(&mut message, status);
            message.append(".");
            append_not_saved(&mut message, &complaint);
            self.message = Some((message, true));
            return self.show_again(config);
        }
        self.phase = Phase::Returning { item, complaint };
        Action::AskToReturn
    }

    /// Takes an event in and says what is to be done next.
    pub fn step(&mut self, config: &MenuConfig, dry_run: bool, event: Event<String>) -> (action:
        Action<String>)
        requires
            config.well_formed(),
            old(self).well_formed(*config),
            awaited(old(self).state().phase, event_contents(event)),
        ensures
            (final(self).state(), action_contents(action)) == next(
                *config,
                dry_run,
                old(self).state(),
                event_contents(event),
            ),
            final(self).well_formed(*config),
    {
        let mut phase = Phase::Over;
        std::mem::swap(&mut phase, &mut self.phase);
        match (phase, event) {
            (Phase::Choosing, Event::Key { key, page }) => {
                self.phase = Phase::Choosing;
                self.message = None;
                if ctrl_c(key) {
                    self.exit(EXIT_INTERRUPTED, None)
                } else if self.search_mode {
                    self.search(config, key, page)
                } else {
                    self.browse(config, key, page)
                }
            },
            (Phase::Confirming { item }, Event::Key { key, .. }) => {
                if ctrl_c(key) {
                    return self.exit(EXIT_INTERRUPTED, None);
                }
                let agreed = match key_text(key) {
                    Some(shown) => shown == "y".to_owned(),
                    None => false,
                };
                if agreed {
                    self.phase = Phase::Running { item };
                    return Action::Run { item, redraw: false };
                }
                self.message = Some(("Cancelled.".to_owned(), false));
                self.show_again(config)
            },
            (Phase::Running { item }, Event::Ended { status, interrupted }) => {
                let stopped = interrupted || status == EXIT_INTERRUPTED;
                self.phase = Phase::Running { item };
                if dry_run {
                    return self.complete(config, item, status, stopped, None);
                }
                let id = config.items[item].stable_id.as_str();
                proof {
                    lemma_solid_is_storable(id@);
                }
                let contents = self.recents.mark_used(id);
                self.phase = Phase::Storing { item, status, interrupted: stopped };
                Action::Store { contents }
            },
            (Phase::Storing { item, status, interrupted }, Event::Stored { complaint }) => {
                self.phase = Phase::Storing { item, status, interrupted };
                self.complete(config, item, status, interrupted, complaint)
            },
            (Phase::Returning { item, complaint }, Event::Key { key, .. }) => {
                if ctrl_c(key) {
                    return self.exit(EXIT_INTERRUPTED, None);
                }
                if key.code == KeyCode::Esc {
                    return self.exit(0, None);
                }
                self.message = Some(
                    match complaint {
                        Some(reason) => (
                            joined(
                                "Command completed; recent state was not saved: ",
                                reason.as_str(),
                            ),
                            true,
                        ),
                        None => (quoted(&config.items[item].label, "' completed."), false),
                    },
                );
                self.show_again(config)
            },
            _ => {
                assert(false);
                Action::AwaitKey
            },
        }
    }
}

proof fn lemma_solid_is_storable(id: Seq<char>)
    requires
        crate::identity::solid(id),
    ensures
        recent::storable(id),
{
    assert forall|i: int| 0 <= i < id.len() implies #[trigger] id[i] != '\n' by {
        assert(!text::white_space(id[i]));
    }
    assert(!text::white_space(id[id.len() - 1]));
}

// ---------------------------------------------------------------------------
// Laws
// ---------------------------------------------------------------------------
/// The session waits for a key.
pub open spec fn waits_for_key(state: State) -> bool {
    state.phase is Choosing || state.phase is Confirming || state.phase is Returning
}

/// Ctrl+C ends the program wherever a key is waited for.
pub proof fn ctrl_c_always_exits(
    config: MenuConfig,
    dry_run: bool,
    state: State,
    key: KeyEvent,
    page: usize,
)
    requires
        waits_for_key(state),
        keys::interrupts(key),
    ensures
        next(config, dry_run, state, Event::Key { key, page }).1 == (Action::<Seq<char>>::Exit {
            status: EXIT_INTERRUPTED,
            complaint: None,
        }),
{
}

/// In a search, Esc clears the query first, then goes back to browsing, and then
/// quits.
pub proof fn escape_clears_then_closes_then_quits(
    config: MenuConfig,
    dry_run: bool,
    state: State,
    key: KeyEvent,
    page: usize,
)
    requires
        state.phase is Choosing,
        state.search_mode,
        state.query.len() > 0,
        key.code is Esc,
    ensures
        ({
            let event = Event::Key { key, page };
            let (cleared, first) = next(config, dry_run, state, event);
            let (closed, second) = next(config, dry_run, cleared, event);
            let (_, third) = next(config, dry_run, closed, event);
            &&& cleared.search_mode && cleared.query.len() == 0 && first is AwaitKey
            &&& !closed.search_mode && closed.query.len() == 0 && second is AwaitKey
            &&& third == (Action::<Seq<char>>::Exit { status: 0, complaint: None })
        }),
{
}

proof fn lemma_bound_item(config: MenuConfig, key: Seq<char>, item: int, from: int)
    requires
        config.distinct_bindings(),
        0 <= from <= item < config.items@.len() <= menu::MAX_MENU_ITEMS,
        menu::normalized_binding(config.items@[item].key) == Some(key),
    ensures
        bound_item(config.items@, key, from) == Some(item as usize),
    decreases item - from,
{
    if from < item {
        assert(menu::normalized_binding(config.items@[from].key) != Some(key)) by {
            if menu::normalized_binding(config.items@[from].key) == Some(key) {
                assert(menu::normalized_binding(config.items@[from].key)
                    != menu::normalized_binding(config.items@[item].key));
            }
        }
        lemma_bound_item(config, key, item, from + 1);
    }
}

/// In browse mode the binding of an item, in upper or lower case, picks that item
/// and no other: it is asked for where it has to be confirmed, and runs else.
pub proof fn a_binding_picks_its_item(
    config: MenuConfig,
    dry_run: bool,
    state: State,
    key: KeyEvent,
    page: usize,
    item: usize,
)
    requires
        config.well_formed(),
        state.phase is Choosing,
        !state.search_mode,
        item < config.items@.len(),
        !keys::interrupts(key),
        key.code is Char,
        keys::text_of(key) == menu::normalized_binding(config.items@[item as int].key),
    ensures
        next(config, dry_run, state, Event::Key { key, page }).1 == (if config.items@[item as int].confirm {
            Action::<Seq<char>>::AskToRun { item }
        } else {
            Action::<Seq<char>>::Run { item, redraw: true }
        }),
{
    reveal_strlit("j");
    reveal_strlit("k");
    reveal_strlit("/");
    assert(text::lowered(seq!['j']) == "j"@);
    assert(text::lowered(seq!['k']) == "k"@);
    assert(text::lowered(seq!['/']) == "/"@);
    lemma_bound_item(config, keys::text_of(key)->0, item as int, 0);
}

/// An item that has to be confirmed runs only after the answer `y`.
pub proof fn nothing_runs_unconfirmed(
    config: MenuConfig,
    dry_run: bool,
    state: State,
    event: Event<Seq<char>>,
)
    ensures
        next(config, dry_run, state, event).1 matches Action::Run { item, .. } ==> {
            ||| !config.items@[item as int].confirm
            ||| state.phase == (Phase::<Seq<char>>::Confirming { item }) && (event matches Event::Key {
                key,
                ..
            } && keys::text_of(key) == Some("y"@))
        },
{
}

/// A dry run neither changes the history nor stores it.
pub proof fn a_dry_run_keeps_the_history(
    config: MenuConfig,
    state: State,
    event: Event<Seq<char>>,
)
    ensures
        next(config, true, state, event).0.recents == state.recents,
        !(next(config, true, state, event).1 is Store),
{
}

/// Once a command has run, it is the latest in the history that is stored.
pub proof fn a_command_that_ran_is_remembered(
    config: MenuConfig,
    state: State,
    item: usize,
    status: i32,
    interrupted: bool,
)
    requires
        state.phase == (Phase::<Seq<char>>::Running { item }),
    ensures
        ({
            let (after, action) = next(
                config,
                false,
                state,
                Event::Ended { status, interrupted },
            );
            &&& recent::rank_of(after.recents, config.items@[item as int].stable_id@) == Some(0int)
            &&& action == Action::Store { contents: recent::stored(after.recents) }
        }),
{
    recent::a_used_item_comes_first(state.recents, config.items@[item as int].stable_id@);
}

/// A menu that does not loop exits when its command has ended, with the command's
/// status, also where the history could not be stored.
pub proof fn without_loop_the_command_decides_the_exit(
    config: MenuConfig,
    dry_run: bool,
    state: State,
    item: usize,
    status: i32,
    interrupted: bool,
    complaint: Option<Seq<char>>,
)
    requires
        !config.loop_menu,
        state.phase == (Phase::<Seq<char>>::Running { item }),
    ensures
        ({
            let (after, action) = next(
                config,
                dry_run,
                state,
                Event::Ended { status, interrupted },
            );
            let (_, last) = next(config, dry_run, after, Event::Stored { complaint });
            if dry_run {
                action == (Action::<Seq<char>>::Exit { status, complaint: None })
            } else {
                &&& action is Store
                &&& last is Exit
                &&& last->Exit_status == status
                &&& last->Exit_complaint is Some <==> complaint is Some
            }
        }),
{
}

/// A menu that does not loop never asks for a key to return.
pub proof fn without_loop_nothing_is_asked_after_a_command(
    config: MenuConfig,
    dry_run: bool,
    state: State,
    event: Event<Seq<char>>,
)
    requires
        !config.loop_menu,
    ensures
        !(next(config, dry_run, state, event).1 is AskToReturn),
{
}

/// The status line reports a failure, and the report ends with `reason`.
pub open spec fn tells(state: State, reason: Seq<char>) -> bool {
    match state.message {
        Some((told, failed)) => failed && reason.is_suffix_of(told),
        None => false,
    }
}

/// In a menu that loops a failure to store the history is always reported in the
/// status line: at once where the command failed or was interrupted, else with the
/// next key, unless that key ends the program.
pub proof fn a_storing_failure_is_reported(
    config: MenuConfig,
    dry_run: bool,
    state: State,
    reason: Seq<char>,
    key: KeyEvent,
    page: usize,
)
    requires
        config.loop_menu,
        state.phase is Storing,
        !keys::interrupts(key),
        !(key.code is Esc),
    ensures
        ({
            let (first, action) = next(
                config,
                dry_run,
                state,
                Event::Stored { complaint: Some(reason) },
            );
            let (second, later) = next(config, dry_run, first, Event::Key { key, page });
            if state.phase->Storing_status == 0 && !state.phase->Storing_interrupted {
                action is AskToReturn && later is AwaitKey && tells(second, reason)
            } else {
                action is AwaitKey && tells(first, reason)
            }
        }),
{
    let (first, _) = next(config, dry_run, state, Event::Stored { complaint: Some(reason) });
    let (second, _) = next(config, dry_run, first, Event::Key { key, page });
    if state.phase->Storing_status == 0 && !state.phase->Storing_interrupted {
        let (told, _) = second.message->0;
        assert(told.skip(told.len() - reason.len()) == reason);
    } else {
        let (told, _) = first.message->0;
        assert(told.skip(told.len() - reason.len()) == reason);
    }
}

/// A failure to store the history prevents nothing: the menu goes on, or the
/// program exits with the same status.
pub proof fn a_storing_failure_prevents_nothing(
    config: MenuConfig,
    dry_run: bool,
    state: State,
    reason: Seq<char>,
)
    requires
        state.phase is Storing,
    ensures
        ({
            let (one, first) = next(
                config,
                dry_run,
                state,
                Event::Stored { complaint: Some(reason) },
            );
            let (other, second) = next(config, dry_run, state, Event::Stored { complaint: None });
            &&& one.selected == other.selected
            &&& one.ordered == other.ordered
            &&& one.recents == other.recents
            &&& one.query == other.query
            &&& one.search_mode == other.search_mode
            &&& match (first, second) {
                (Action::Exit { status: code, .. }, Action::Exit { status, .. }) => code == status,
                _ => first == second,
            }
        }),
{
}

/// In a menu that loops the item that ran is selected when the menu is shown again,
/// however its command ended and whether or not the history could be stored.
pub proof fn the_item_that_ran_stays_selected(
    config: MenuConfig,
    dry_run: bool,
    state: State,
    complaint: Option<Seq<char>>,
    key: KeyEvent,
    page: usize,
)
    requires
        config.well_formed(),
        config.loop_menu,
        sensible(config, state),
        state.phase is Storing,
        !keys::interrupts(key),
        !(key.code is Esc),
    ensures
        ({
            let item = state.phase->Storing_item;
            let (first, action) = next(config, dry_run, state, Event::Stored { complaint });
            let (second, _) = next(config, dry_run, first, Event::Key { key, page });
            if action is AwaitKey {
                first.ordered[first.selected] == item
            } else {
                second.ordered[second.selected] == item
            }
        }),
{
    let item = state.phase->Storing_item;
    let ordered = order::listing(config.items@, state.query, state.recents);
    order::there_is_a_listing(config.items@, state.query, state.recents);
    assert(ordered.contains(item));
    lemma_place_of(ordered, item, 0);
}

/// Enter picks the selected item, in browse mode and in search mode.
pub proof fn enter_picks_the_selected_item(
    config: MenuConfig,
    dry_run: bool,
    state: State,
    key: KeyEvent,
    page: usize,
)
    requires
        state.phase is Choosing,
        0 <= state.selected < state.ordered.len(),
        key.code is Enter,
    ensures
        ({
            let item = state.ordered[state.selected];
            next(config, dry_run, state, Event::Key { key, page }).1 == (
            if config.items@[item as int].confirm {
                Action::<Seq<char>>::AskToRun { item }
            } else {
                Action::<Seq<char>>::Run { item, redraw: true }
            })
        }),
{
}

/// In browse mode the quit key, in upper or lower case, ends the program with
/// status 0.
pub proof fn the_quit_key_quits(
    config: MenuConfig,
    dry_run: bool,
    state: State,
    key: KeyEvent,
    page: usize,
)
    requires
        state.phase is Choosing,
        !state.search_mode,
        !keys::interrupts(key),
        keys::text_of(key) == Some(text::lowered(config.quit_key@)),
    ensures
        next(config, dry_run, state, Event::Key { key, page }).1 == (Action::<Seq<char>>::Exit {
            status: 0,
            complaint: None,
        }),
{
}

/// The arrow keys go one item up or down, the paging keys one page, and Home and
/// End to the first and the last item; none of them leaves the listing.
pub proof fn movement_keys_move(
    config: MenuConfig,
    dry_run: bool,
    state: State,
    key: KeyEvent,
    page: usize,
)
    requires
        state.phase is Choosing,
        sensible(config, state),
    ensures
        ({
            let last = last_place(state.ordered);
            let (after, action) = next(config, dry_run, state, Event::Key { key, page });
            let goes_to = |place: int| -> bool
                {
                    &&& after.selected == place
                    &&& after.ordered == state.ordered
                    &&& action is AwaitKey
                };
            &&& key.code is Up ==> goes_to(vstd::math::max(state.selected - 1, 0))
            &&& key.code is Down ==> goes_to(vstd::math::min(state.selected + 1, last))
            &&& key.code is PageUp ==> goes_to(vstd::math::max(state.selected - page, 0))
            &&& key.code is PageDown ==> goes_to(vstd::math::min(state.selected + page, last))
            &&& key.code is Home ==> goes_to(0)
            &&& key.code is End ==> goes_to(last)
        }),
{
}

/// In browse mode `j` and `k` do what the arrow keys do, each unless it is the quit
/// key.
pub proof fn letters_move_like_arrows(
    config: MenuConfig,
    dry_run: bool,
    state: State,
    down: KeyEvent,
    up: KeyEvent,
    page: usize,
)
    requires
        state.phase is Choosing,
        !state.search_mode,
        down.code == KeyCode::Char('j'),
        up.code == KeyCode::Char('k'),
    ensures
        text::lowered(config.quit_key@) != seq!['j'] ==> next(
            config,
            dry_run,
            state,
            Event::Key { key: down, page },
        ) == next(
            config,
            dry_run,
            state,
            Event::Key { key: KeyEvent { code: KeyCode::Down, ..down }, page },
        ),
        text::lowered(config.quit_key@) != seq!['k'] ==> next(
            config,
            dry_run,
            state,
            Event::Key { key: up, page },
        ) == next(
            config,
            dry_run,
            state,
            Event::Key { key: KeyEvent { code: KeyCode::Up, ..up }, page },
        ),
{
    assert(text::lowered(seq!['j']) == seq!['j']);
    assert(text::lowered(seq!['k']) == seq!['k']);
}

/// In browse mode `/` opens a search with an empty query, unless it is the quit
/// key.
pub proof fn a_slash_opens_a_search(
    config: MenuConfig,
    dry_run: bool,
    state: State,
    key: KeyEvent,
    page: usize,
)
    requires
        state.phase is Choosing,
        !state.search_mode,
        key.code == KeyCode::Char('/'),
        text::lowered(config.quit_key@) != seq!['/'],
    ensures
        ({
            let (after, action) = next(config, dry_run, state, Event::Key { key, page });
            &&& after.search_mode
            &&& after.query.len() == 0
            &&& action is AwaitKey
        }),
{
    assert(text::lowered(seq!['/']) == seq!['/']);
}

/// The keys that move through the listing do the same in both modes.
pub proof fn moving_is_the_same_in_both_modes(
    config: MenuConfig,
    dry_run: bool,
    browsing: State,
    key: KeyEvent,
    page: usize,
)
    requires
        browsing.phase is Choosing,
        !browsing.search_mode,
        moved(browsing, key.code, page) is Some,
    ensures
        ({
            let searching = State { search_mode: true, ..browsing };
            let (one, first) = next(config, dry_run, browsing, Event::Key { key, page });
            let (other, second) = next(config, dry_run, searching, Event::Key { key, page });
            &&& other == (State { search_mode: true, ..one })
            &&& first == second
        }),
{
}

/// Backspace takes back what was typed.
pub proof fn backspace_undoes_typing(
    config: MenuConfig,
    dry_run: bool,
    state: State,
    key: KeyEvent,
    back: KeyEvent,
    page: usize,
)
    requires
        state.phase is Choosing,
        state.search_mode,
        keys::typed(key) is Some,
        back.code is Backspace,
    ensures
        ({
            let (longer, _) = next(config, dry_run, state, Event::Key { key, page });
            let (after, _) = next(config, dry_run, longer, Event::Key { key: back, page });
            &&& longer.query == state.query.push(keys::typed(key)->0)
            &&& after.query == state.query
            &&& after.search_mode
        }),
{
    let character = keys::typed(key)->0;
    assert(state.query.push(character).drop_last() == state.query);
}

/// Up goes back to where Down came from.
pub proof fn up_undoes_down(
    config: MenuConfig,
    dry_run: bool,
    state: State,
    down: KeyEvent,
    up: KeyEvent,
    page: usize,
)
    requires
        state.phase is Choosing,
        sensible(config, state),
        state.selected + 1 < state.ordered.len(),
        down.code is Down,
        up.code is Up,
    ensures
        ({
            let (below, _) = next(config, dry_run, state, Event::Key { key: down, page });
            let (after, _) = next(config, dry_run, below, Event::Key { key: up, page });
            &&& below.selected == state.selected + 1
            &&& after.selected == state.selected
            &&& after.ordered == state.ordered
        }),
{
}

// ---------------------------------------------------------------------------
// Where each event leads
// ---------------------------------------------------------------------------
/// What each key leads to in a search. Ctrl+C leaves the program with 130. A character
/// is added to the query and Backspace takes the last one away; both go to the first
/// match. Esc empties the query, or goes back to browsing where it is empty. The
/// movement keys move, Enter picks the selected item, and other keys change nothing.
pub proof fn what_keys_do_in_a_search(
    config: MenuConfig,
    dry_run: bool,
    state: State,
    key: KeyEvent,
    page: usize,
)
    requires
        state.phase is Choosing,
        state.search_mode,
        sensible(config, state),
    ensures
        ({
            let (after, action) = next(config, dry_run, state, Event::Key { key, page });
            let last = state.ordered.len() - 1;
            let shows = |search_mode: bool, query: Seq<char>, wanted: int| -> bool
                {
                    &&& action is AwaitKey
                    &&& after.phase is Choosing
                    &&& after.search_mode == search_mode
                    &&& after.query == query
                    &&& after.recents == state.recents
                    &&& after.message == None::<(Seq<char>, bool)>
                    &&& after.ordered == order::listing(config.items@, query, state.recents)
                    &&& after.selected == vstd::math::max(vstd::math::min(wanted, after.ordered.len() - 1), 0)
                };
            let leaves = |status: int| -> bool
                {
                    &&& after.search_mode == state.search_mode
                    &&& after.query == state.query
                    &&& after.recents == state.recents
                    &&& after.ordered == state.ordered
                    &&& after.phase is Over
                    &&& action is Exit
                    &&& action->Exit_status == status
                    &&& action->Exit_complaint is None
                };
            let picks = |item: usize| -> bool
                {
                    &&& after.search_mode == state.search_mode
                    &&& after.query == state.query
                    &&& after.recents == state.recents
                    &&& after.ordered == state.ordered
                    &&& after.message is None
                    &&& config.items@[item as int].confirm ==> after.phase == (Phase::<
                        Seq<char>,
                    >::Confirming { item }) && action == (Action::<Seq<char>>::AskToRun { item })
                    &&& !config.items@[item as int].confirm ==> after.phase == (Phase::<
                        Seq<char>,
                    >::Running { item }) && action == (Action::<Seq<char>>::Run {
                        item,
                        redraw: true,
                    })
                };
            match key.code {
                KeyCode::Char(character) => if character == 'c' && key.control {
                    leaves(130)
                } else if key.control || key.alt {
                    shows(true, state.query, state.selected)
                } else {
                    shows(true, state.query.push(character), 0)
                },
                KeyCode::Backspace => shows(
                    true,
                    if state.query.len() == 0 {
                        state.query
                    } else {
                        state.query.take(state.query.len() - 1)
                    },
                    0,
                ),
                KeyCode::Esc => if state.query.len() == 0 {
                    shows(false, state.query, 0)
                } else {
                    shows(true, Seq::empty(), 0)
                },
                KeyCode::Up => shows(true, state.query, state.selected - 1),
                KeyCode::Down => shows(true, state.query, state.selected + 1),
                KeyCode::PageUp => shows(true, state.query, state.selected - page),
                KeyCode::PageDown => shows(true, state.query, state.selected + page),
                KeyCode::Home => shows(true, state.query, 0),
                KeyCode::End => shows(true, state.query, last),
                KeyCode::Enter => if state.selected < state.ordered.len() {
                    &&& picks(state.ordered[state.selected])
                    &&& after.selected == state.selected
                } else {
                    shows(true, state.query, state.selected)
                },
                KeyCode::Other => shows(true, state.query, state.selected),
            }
        }),
{
    if key.code is Backspace && state.query.len() > 0 {
        assert(state.query.drop_last() == state.query.take(state.query.len() - 1));
    }
}

/// What each key leads to while browsing. Ctrl+C leaves the program with 130, Esc and
/// the quit key with 0. `/` opens a search. The movement keys, `j` and `k` move, and
/// Enter picks the selected item. The key of an item picks it and selects it. Any other
/// key is reported as unknown and changes nothing.
pub proof fn what_keys_do_while_browsing(
    config: MenuConfig,
    dry_run: bool,
    state: State,
    key: KeyEvent,
    page: usize,
)
    requires
        state.phase is Choosing,
        !state.search_mode,
        sensible(config, state),
        config.items@.len() <= usize::MAX,
    ensures
        ({
            let (after, action) = next(config, dry_run, state, Event::Key { key, page });
            let last = state.ordered.len() - 1;
            let shows = |search_mode: bool, wanted: int, message: Option<(Seq<char>, bool)>| -> bool
                {
                    &&& action is AwaitKey
                    &&& after.phase is Choosing
                    &&& after.search_mode == search_mode
                    &&& after.query == Seq::<char>::empty()
                    &&& after.recents == state.recents
                    &&& after.message == message
                    &&& after.ordered == order::listing(config.items@, Seq::<char>::empty(), state.recents)
                    &&& after.selected == vstd::math::max(vstd::math::min(wanted, after.ordered.len() - 1), 0)
                };
            let leaves = |status: int| -> bool
                {
                    &&& after.search_mode == state.search_mode
                    &&& after.query == state.query
                    &&& after.recents == state.recents
                    &&& after.ordered == state.ordered
                    &&& after.phase is Over
                    &&& action is Exit
                    &&& action->Exit_status == status
                    &&& action->Exit_complaint is None
                };
            let picks = |item: usize| -> bool
                {
                    &&& after.search_mode == state.search_mode
                    &&& after.query == state.query
                    &&& after.recents == state.recents
                    &&& after.ordered == state.ordered
                    &&& after.message is None
                    &&& config.items@[item as int].confirm ==> after.phase == (Phase::<
                        Seq<char>,
                    >::Confirming { item }) && action == (Action::<Seq<char>>::AskToRun { item })
                    &&& !config.items@[item as int].confirm ==> after.phase == (Phase::<
                        Seq<char>,
                    >::Running { item }) && action == (Action::<Seq<char>>::Run {
                        item,
                        redraw: true,
                    })
                };
            let unknown = Some(("Unknown key. Press / to search."@, true));
            match key.code {
                KeyCode::Char(character) => if character == 'c' && key.control {
                    leaves(130)
                } else if text::lowered(seq![character]) == text::lowered(config.quit_key@) {
                    leaves(0)
                } else if character == '/' {
                    shows(true, 0, None)
                } else if character == 'k' {
                    shows(false, state.selected - 1, None)
                } else if character == 'j' {
                    shows(false, state.selected + 1, None)
                } else if exists|i: int|
                    0 <= i < config.items@.len() && (#[trigger] config.items@[i]).key is Some
                        && text::lowered(config.items@[i].key->0@) == text::lowered(
                        seq![character],
                    ) {
                    exists|item: int|
                        {
                            &&& 0 <= item < config.items@.len()
                            &&& (#[trigger] config.items@[item]).key is Some
                            &&& text::lowered(config.items@[item].key->0@) == text::lowered(
                                seq![character],
                            )
                            &&& forall|i: int|
                                0 <= i < item && (#[trigger] config.items@[i]).key is Some
                                    ==> text::lowered(config.items@[i].key->0@) != text::lowered(
                                    seq![character],
                                )
                            &&& picks(item as usize)
                            &&& state.ordered.contains(item as usize) ==> 0 <= after.selected
                                < state.ordered.len() && state.ordered[after.selected] == item
                        }
                } else {
                    shows(false, state.selected, unknown)
                },
                KeyCode::Esc => leaves(0),
                KeyCode::Up => shows(false, state.selected - 1, None),
                KeyCode::Down => shows(false, state.selected + 1, None),
                KeyCode::PageUp => shows(false, state.selected - page, None),
                KeyCode::PageDown => shows(false, state.selected + page, None),
                KeyCode::Home => shows(false, 0, None),
                KeyCode::End => shows(false, last, None),
                KeyCode::Enter => if state.selected < state.ordered.len() {
                    &&& picks(state.ordered[state.selected])
                    &&& after.selected == state.selected
                } else {
                    shows(false, state.selected, None)
                },
                KeyCode::Backspace => shows(false, state.selected, unknown),
                KeyCode::Other => shows(false, state.selected, unknown),
            }
        }),
{
    assert(state.query == Seq::<char>::empty());
    if let KeyCode::Char(character) = key.code {
        let pressed = text::lowered(seq![character]);
        lemma_bound_item_is_first(config.items@, pressed, 0);
        let (after, action) = next(config, dry_run, state, Event::Key { key, page });
        if let Some(item) = bound_item(config.items@, pressed, 0) {
            lemma_place_of(state.ordered, item, 0);
            if !keys::interrupts(key) && pressed != text::lowered(config.quit_key@) && character
                != '/' && character != 'k' && character != 'j' {
                assert(config.items@[item as int].key is Some);
            }
        }
    }
}

proof fn lemma_bound_item_is_first(items: Seq<MenuItem>, key: Seq<char>, from: int)
    requires
        0 <= from <= items.len() <= usize::MAX,
    ensures
        match bound_item(items, key, from) {
            Some(item) => {
                &&& from <= item < items.len()
                &&& items[item as int].key is Some
                &&& text::lowered(items[item as int].key->0@) == key
                &&& forall|i: int|
                    from <= i < item && (#[trigger] items[i]).key is Some ==> text::lowered(
                        items[i].key->0@,
                    ) != key
            },
            None => forall|i: int|
                from <= i < items.len() && (#[trigger] items[i]).key is Some ==> text::lowered(
                    items[i].key->0@,
                ) != key,
        },
    decreases items.len() - from,
{
    if from < items.len() && menu::normalized_binding(items[from].key) != Some(key) {
        lemma_bound_item_is_first(items, key, from + 1);
    }
}

/// What each answer leads to when an item has to be confirmed. Ctrl+C leaves the program
/// with 130. `y` or `Y` runs the item. Any other key goes back to the menu as it was and
/// says that it was cancelled.
pub proof fn what_answers_do(
    config: MenuConfig,
    dry_run: bool,
    state: State,
    item: usize,
    key: KeyEvent,
    page: usize,
)
    requires
        state.phase == (Phase::<Seq<char>>::Confirming { item }),
        sensible(config, state),
    ensures
        ({
            let (after, action) = next(config, dry_run, state, Event::Key { key, page });
            let cancelled = {
                &&& action is AwaitKey
                &&& after.phase is Choosing
                &&& after.search_mode == state.search_mode
                &&& after.query == state.query
                &&& after.recents == state.recents
                &&& after.message == Some(("Cancelled."@, false))
                &&& after.ordered == order::listing(config.items@, state.query, state.recents)
                &&& after.selected == vstd::math::max(vstd::math::min(state.selected, after.ordered.len() - 1), 0)
            };
            let runs = {
                &&& after.search_mode == state.search_mode
                &&& after.query == state.query
                &&& after.recents == state.recents
                &&& after.ordered == state.ordered
                &&& after.selected == state.selected
                &&& after.phase == (Phase::<Seq<char>>::Running { item })
                &&& action == (Action::<Seq<char>>::Run { item, redraw: false })
            };
            match key.code {
                KeyCode::Char(character) => if character == 'c' && key.control {
                    &&& after.phase is Over
                    &&& after.recents == state.recents
                    &&& action == (Action::<Seq<char>>::Exit { status: 130, complaint: None })
                } else if character == 'y' || character == 'Y' {
                    runs
                } else if (character as u32) < 128 {
                    cancelled
                } else {
                    // Beyond ASCII only a character whose lowercase is `y` agrees.
                    if text::lowered(seq![character]) == "y"@ {
                        runs
                    } else {
                        cancelled
                    }
                },
                _ => cancelled,
            }
        }),
{
    reveal_strlit("y");
    if let KeyCode::Char(character) = key.code {
        let typed = seq![character];
        if (character as u32) < 128 {
            assert(vstd::utf8::is_ascii_chars(typed));
            text::lowering_changes_capital_letters_alone(typed);
            assert(text::lowered(typed)[0] == text::ascii_lower(character));
            if character == 'y' || character == 'Y' {
                assert(text::lowered(typed) == "y"@);
            } else {
                assert(text::lowered(typed) != "y"@) by {
                    if text::lowered(typed) == "y"@ {
                        assert(text::lowered(typed)[0] == 'y');
                    }
                }
            }
        }
    }
}

/// When a command has ended the history is stored with its item in front, and what is
/// done with its status waits for that; it counts as interrupted also where its status
/// is 130.
pub proof fn what_the_end_of_a_command_does(
    config: MenuConfig,
    state: State,
    item: usize,
    status: i32,
    interrupted: bool,
)
    requires
        state.phase == (Phase::<Seq<char>>::Running { item }),
    ensures
        ({
            let (after, action) = next(config, false, state, Event::Ended { status, interrupted });
            let recents = recent::with_used(
                state.recents,
                config.items@[item as int].stable_id@,
            );
            &&& after.search_mode == state.search_mode
            &&& after.query == state.query
            &&& after.selected == state.selected
            &&& after.ordered == state.ordered
            &&& after.message == state.message
            &&& after.recents == recents
            &&& after.phase == (Phase::<Seq<char>>::Storing {
                item,
                status,
                interrupted: interrupted || status == 130,
            })
            &&& action == Action::Store { contents: recent::stored(recents) }
        }),
{
}

/// What is done once a command has ended and the history is stored. A menu that does not
/// loop is left with the status of the command. Else the item is selected, and where the
/// command was interrupted or failed the menu says so; after a success a key is asked
/// for. Why the history was not stored is told in each case, or kept for later.
pub proof fn what_is_done_when_the_history_is_stored(
    config: MenuConfig,
    dry_run: bool,
    state: State,
    item: usize,
    status: i32,
    interrupted: bool,
    complaint: Option<Seq<char>>,
)
    requires
        state.phase == (Phase::<Seq<char>>::Storing { item, status, interrupted }),
    ensures
        ({
            let (after, action) = next(config, dry_run, state, Event::Stored { complaint });
            let stopped = interrupted;
            let label = config.items@[item as int].label@;
            let also = match complaint {
                Some(reason) => " Recent state was not saved: "@ + reason,
                None => Seq::empty(),
            };
            let ordered = order::listing(config.items@, state.query, state.recents);
            let told = if stopped {
                "'"@ + label + "' interrupted."@ + also
            } else {
                "'"@ + label + "' failed with status "@ + text::signed_decimal(status as int) + "."@
                    + also
            };
            &&& after.search_mode == state.search_mode
            &&& after.query == state.query
            &&& after.recents == state.recents
            &&& !config.loop_menu ==> {
                &&& after.phase is Over
                &&& action is Exit
                &&& action->Exit_status == status
                &&& action->Exit_complaint == (match complaint {
                    Some(reason) => Some(
                        "Command completed; recent state was not saved: "@ + reason,
                    ),
                    None => None,
                })
            }
            &&& config.loop_menu ==> {
                &&& ordered.contains(item) ==> 0 <= after.selected < ordered.len()
                    && ordered[after.selected] == item
                &&& stopped || status != 0 ==> {
                    &&& action is AwaitKey
                    &&& after.phase is Choosing
                    &&& after.ordered == ordered
                    &&& after.message == Some((told, true))
                }
                &&& !stopped && status == 0 ==> {
                    &&& action is AskToReturn
                    &&& after.phase == (Phase::Returning { item, complaint: complaint })
                }
            }
        }),
{
    let ordered = order::listing(config.items@, state.query, state.recents);
    lemma_place_of(ordered, item, 0);
    let label = config.items@[item as int].label@;
    assert("'"@ + label + "' interrupted."@ + Seq::<char>::empty() == "'"@ + label
        + "' interrupted."@);
}

/// What is done once the command of a dry run was announced: the same, at once and with
/// the history as it was. A status of 130 counts as interrupted.
pub proof fn what_is_done_after_a_dry_run(
    config: MenuConfig,
    state: State,
    item: usize,
    status: i32,
    interrupted: bool,
)
    requires
        state.phase == (Phase::<Seq<char>>::Running { item }),
    ensures
        ({
            let (after, action) = next(config, true, state, Event::Ended { status, interrupted });
            let stopped = interrupted || status == 130;
            let label = config.items@[item as int].label@;
            let also = match None::<Seq<char>> {
                Some(reason) => " Recent state was not saved: "@ + reason,
                None => Seq::empty(),
            };
            let ordered = order::listing(config.items@, state.query, state.recents);
            let told = if stopped {
                "'"@ + label + "' interrupted."@ + also
            } else {
                "'"@ + label + "' failed with status "@ + text::signed_decimal(status as int) + "."@
                    + also
            };
            &&& after.search_mode == state.search_mode
            &&& after.query == state.query
            &&& after.recents == state.recents
            &&& !config.loop_menu ==> {
                &&& after.phase is Over
                &&& action is Exit
                &&& action->Exit_status == status
                &&& action->Exit_complaint == (match None::<Seq<char>> {
                    Some(reason) => Some(
                        "Command completed; recent state was not saved: "@ + reason,
                    ),
                    None => None,
                })
            }
            &&& config.loop_menu ==> {
                &&& ordered.contains(item) ==> 0 <= after.selected < ordered.len()
                    && ordered[after.selected] == item
                &&& stopped || status != 0 ==> {
                    &&& action is AwaitKey
                    &&& after.phase is Choosing
                    &&& after.ordered == ordered
                    &&& after.message == Some((told, true))
                }
                &&& !stopped && status == 0 ==> {
                    &&& action is AskToReturn
                    &&& after.phase == (Phase::Returning { item, complaint: None::<Seq<char>> })
                }
            }
        }),
{
    let ordered = order::listing(config.items@, state.query, state.recents);
    lemma_place_of(ordered, item, 0);
    let label = config.items@[item as int].label@;
    assert("'"@ + label + "' interrupted."@ + Seq::<char>::empty() == "'"@ + label
        + "' interrupted."@);
}

/// What each key leads to after a command succeeded. Ctrl+C leaves the program with 130
/// and Esc with 0. Any other key goes back to the menu, which says that the item
/// completed, or that the history was not stored and why.
pub proof fn what_keys_do_after_a_command(
    config: MenuConfig,
    dry_run: bool,
    state: State,
    item: usize,
    complaint: Option<Seq<char>>,
    key: KeyEvent,
    page: usize,
)
    requires
        state.phase == (Phase::<Seq<char>>::Returning { item, complaint }),
        0 <= state.selected,
    ensures
        ({
            let (after, action) = next(config, dry_run, state, Event::Key { key, page });
            let told = match complaint {
                Some(reason) => (
                    "Command completed; recent state was not saved: "@ + reason,
                    true,
                ),
                None => ("'"@ + config.items@[item as int].label@ + "' completed."@, false),
            };
            if key.code == KeyCode::Char('c') && key.control {
                &&& after.phase is Over
                &&& after.recents == state.recents
                &&& action == (Action::<Seq<char>>::Exit { status: 130, complaint: None })
            } else if key.code is Esc {
                &&& after.phase is Over
                &&& after.recents == state.recents
                &&& action == (Action::<Seq<char>>::Exit { status: 0, complaint: None })
            } else {
                &&& action is AwaitKey
                &&& after.phase is Choosing
                &&& after.search_mode == state.search_mode
                &&& after.query == state.query
                &&& after.recents == state.recents
                &&& after.message == Some(told)
                &&& after.ordered == order::listing(config.items@, state.query, state.recents)
                &&& after.selected == vstd::math::max(vstd::math::min(state.selected, after.ordered.len() - 1), 0)
            }
        }),
{
}

/// The contents of a session, of an event and of an action are what they hold, with the
/// contents of their texts.
pub proof fn contents_are_what_is_held(
    session: Session,
    event: Event<String>,
    action: Action<String>,
)
    ensures
        session.state().selected == session.selected,
        session.state().search_mode == session.search_mode,
        session.state().query == session.query@,
        session.state().ordered == session.ordered@,
        session.state().recents.len() == session.recents.ids@.len(),
        forall|i: int|
            0 <= i < session.recents.ids@.len() ==> #[trigger] session.state().recents[i]
                == session.recents.ids@[i]@,
        session.message is None <==> session.state().message is None,
        session.message matches Some((report, failed)) ==> session.state().message == Some(
            (report@, failed),
        ),
        match session.phase {
            Phase::Choosing => session.state().phase is Choosing,
            Phase::Confirming { item } => session.state().phase == (Phase::<
                Seq<char>,
            >::Confirming { item }),
            Phase::Running { item } => session.state().phase == (Phase::<Seq<char>>::Running {
                item,
            }),
            Phase::Storing { item, status, interrupted } => session.state().phase == (Phase::<
                Seq<char>,
            >::Storing { item, status, interrupted }),
            Phase::Returning { item, complaint } => session.state().phase == (Phase::Returning {
                item,
                complaint: match complaint {
                    Some(reason) => Some(reason@),
                    None => None,
                },
            }),
            Phase::Over => session.state().phase is Over,
        },
        match event {
            Event::Key { key, page } => event_contents(event) == (Event::<Seq<char>>::Key {
                key,
                page,
            }),
            Event::Ended { status, interrupted } => event_contents(event) == (Event::<
                Seq<char>,
            >::Ended { status, interrupted }),
            Event::Stored { complaint } => event_contents(event) == (Event::Stored {
                complaint: match complaint {
                    Some(reason) => Some(reason@),
                    None => None,
                },
            }),
        },
        match action {
            Action::AwaitKey => action_contents(action) is AwaitKey,
            Action::AskToRun { item } => action_contents(action) == (Action::<
                Seq<char>,
            >::AskToRun { item }),
            Action::Run { item, redraw } => action_contents(action) == (Action::<Seq<char>>::Run {
                item,
                redraw,
            }),
            Action::Store { contents } => action_contents(action) == (Action::Store {
                contents: contents@,
            }),
            Action::AskToReturn => action_contents(action) is AskToReturn,
            Action::Exit { status, complaint } => action_contents(action) == (Action::Exit {
                status,
                complaint: match complaint {
                    Some(reason) => Some(reason@),
                    None => None,
                },
            }),
        },
{
}

} // verus!
