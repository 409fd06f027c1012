//! What is drawn on the terminal.
use crate::binding;
use crate::binding::format_binding;
use crate::color::Color;
use crate::command::command_display;
use crate::menu::{MenuConfig, MenuItem};
use crate::recent::RecentStore;
use crate::text;
use crate::text::{joined, push_decimal, truncate_text};
use vstd::prelude::*;

verus! {

/// One step of drawing. `T` is the kind of text that is written.
#[derive(Debug, PartialEq, Eq)]
pub enum Draw<T> {
    ClearScreen,
    ClearLine,
    MoveTo { column: u16, row: u16 },
    HideCursor,
    Foreground(Color),
    Background(Color),
    Bold,
    Dim,
    ResetColor,
    ResetAttributes,
    Text(T),
}

/// A step with the contents of its text.
pub open spec fn shown(step: Draw<String>) -> Draw<Seq<char>> {
    match step {
        Draw::ClearScreen => Draw::ClearScreen,
        Draw::ClearLine => Draw::ClearLine,
        Draw::MoveTo { column, row } => Draw::MoveTo { column, row },
        Draw::HideCursor => Draw::HideCursor,
        Draw::Foreground(color) => Draw::Foreground(color),
        Draw::Background(color) => Draw::Background(color),
        Draw::Bold => Draw::Bold,
        Draw::Dim => Draw::Dim,
        Draw::ResetColor => Draw::ResetColor,
        Draw::ResetAttributes => Draw::ResetAttributes,
        Draw::Text(value) => Draw::Text(value@),
    }
}

/// Several steps with the contents of their texts.
pub open spec fn drawn(steps: Seq<Draw<String>>) -> Seq<Draw<Seq<char>>> {
    steps.map_values(|step: Draw<String>| shown(step))
}

/// The terminal that is drawn on.
#[derive(Debug, Clone, Copy, PartialEq, Eq, Structural)]
pub struct Screen {
    pub columns: u16,
    pub rows: u16,
    pub colors: bool,
}

impl Screen {
    /// How many columns are drawn on: at least 20.
    pub open spec fn width(self) -> nat {
        if self.columns < 20 {
            20
        } else {
            self.columns as nat
        }
    }

    /// How many rows are drawn on: at least 10.
    pub open spec fn height(self) -> nat {
        if self.rows < 10 {
            10
        } else {
            self.rows as nat
        }
    }

    /// The screen for a terminal of this size; 80 columns and 24 rows where the
    /// size is not known.
    pub open spec fn of_size(size: Option<(u16, u16)>, colors: bool) -> Self {
        match size {
            Some((columns, rows)) => Screen { columns, rows, colors },
            None => Screen { columns: 80, rows: 24, colors },
        }
    }

    /// The screen for a terminal of this size; 80 columns and 24 rows where the
    /// size is not known.
    pub fn new(size: Option<(u16, u16)>, colors: bool) -> (screen: Self)
        ensures
            screen == Self::of_size(size, colors),
    {
        match size {
            Some((columns, rows)) => Screen { columns, rows, colors },
            None => Screen { columns: 80, rows: 24, colors },
        }
    }
}

/// Whether styles are used: on a terminal that is not dumb, unless `NO_COLOR` is
/// set. `term` is the value of `TERM` where it is set.
pub fn colors_enabled(is_terminal: bool, no_color: bool, term: Option<&str>) -> (enabled: bool)
    ensures
        enabled == (is_terminal && !no_color && (term matches Some(name) && name@ != "dumb"@)),
{
    is_terminal && !no_color && match term {
        Some(name) => !text::same_text(name, "dumb"),
        None => false,
    }
}

/// How many items one page holds, on a terminal of this size.
pub open spec fn page_items(size: Option<(u16, u16)>) -> int {
    match size {
        Some((_, rows)) => if rows < 10 {
            2
        } else {
            rows - 8
        },
        None => 16,
    }
}

/// How many items one page holds, on a terminal of this size.
pub fn page_size(size: Option<(u16, u16)>) -> (items: usize)
    ensures
        items == page_items(size),
{
    match size {
        Some((_, rows)) => if rows < 10 {
            2
        } else {
            (rows - 8) as usize
        },
        None => 16,
    }
}

// ---------------------------------------------------------------------------
// The picture
// ---------------------------------------------------------------------------
/// What the picture shows besides the menu itself.
pub struct Scene {
    /// The items that are listed.
    pub ordered: Seq<usize>,
    /// Which of them is selected.
    pub selected: int,
    pub search_mode: bool,
    pub query: Seq<char>,
    /// The identities of the commands used last.
    pub recents: Seq<Seq<char>>,
    /// What is reported, and whether it is a failure.
    pub message: Option<(Seq<char>, bool)>,
}

/// How many of the listed items are visible.
pub open spec fn visible_count(scene: Scene, screen: Screen) -> int {
    let capacity = screen.height() - 8;
    if scene.ordered.len() < capacity {
        scene.ordered.len() as int
    } else {
        capacity
    }
}

/// The first listed item that is visible: the selected one is in the middle, as
/// far as there are items on both sides.
pub open spec fn first_visible(scene: Scene, screen: Screen) -> int {
    let count = visible_count(scene, screen);
    let last_start = scene.ordered.len() - count;
    let centered = if scene.selected < count / 2 {
        0
    } else {
        scene.selected - count / 2
    };
    if centered < last_start {
        centered
    } else {
        last_start
    }
}

/// `text` in a style; plain where there are no colors.
pub open spec fn styled(
    screen: Screen,
    style: Seq<Draw<Seq<char>>>,
    text: Seq<char>,
) -> Seq<Draw<Seq<char>>> {
    if screen.colors {
        style + seq![Draw::Text(text), Draw::ResetColor, Draw::ResetAttributes]
    } else {
        seq![Draw::Text(text)]
    }
}

/// Going to the start of a row.
pub open spec fn at_row(row: int) -> Seq<Draw<Seq<char>>> {
    seq![Draw::MoveTo { column: 0, row: row as u16 }]
}

/// `count` times the same character.
pub open spec fn repeated(character: char, count: nat) -> Seq<char> {
    Seq::new(count, |i: int| character)
}

/// `value` with spaces behind it, `width` characters in all where it is shorter.
pub open spec fn padded(value: Seq<char>, width: nat) -> Seq<char> {
    if value.len() < width {
        value + repeated(' ', (width - value.len()) as nat)
    } else {
        value
    }
}

pub open spec fn title_part(config: MenuConfig, screen: Screen) -> Seq<Draw<Seq<char>>> {
    let length = config.title@.len();
    let wanted: nat = if length < 12 {
        12
    } else {
        length
    };
    let rule: nat = if wanted < screen.width() {
        wanted
    } else {
        screen.width()
    };
    seq![Draw::ClearScreen, Draw::MoveTo { column: 0, row: 0 }, Draw::HideCursor] + styled(
        screen,
        seq![Draw::Foreground(Color::Cyan), Draw::Bold],
        text::truncated(config.title@, screen.width()),
    ) + at_row(1) + styled(screen, seq![Draw::Dim], repeated('─', rule))
}

pub open spec fn search_part(scene: Scene, screen: Screen) -> Seq<Draw<Seq<char>>> {
    at_row(2) + styled(
        screen,
        seq![Draw::Dim],
        if scene.search_mode {
            text::truncated("Search: "@ + scene.query + "_"@, screen.width())
        } else {
            "Press / to search"@
        },
    )
}

/// The binding of an item as it is shown; nothing where it has none.
pub open spec fn shown_binding(config: MenuConfig, item: MenuItem) -> Seq<char> {
    match item.key {
        Some(key) => binding::substituted(config.key_format@, key@),
        None => Seq::empty(),
    }
}

/// The width of the widest binding among the first `count` items.
pub open spec fn widest_binding(config: MenuConfig, count: int) -> nat
    decreases count,
{
    if count <= 0 {
        0
    } else {
        let before = widest_binding(config, count - 1);
        let width = shown_binding(config, config.items@[count - 1]).len();
        if before < width {
            width
        } else {
            before
        }
    }
}

/// The width of the bindings of the menu.
pub open spec fn binding_width(config: MenuConfig) -> nat {
    widest_binding(config, config.items@.len() as int)
}

/// The column of bindings in the row of an item: as wide for every item, and left
/// out where no item has a binding.
pub open spec fn binding_column(config: MenuConfig, item: MenuItem) -> Seq<char> {
    if binding_width(config) == 0 {
        Seq::empty()
    } else {
        padded(shown_binding(config, item), binding_width(config)) + " "@
    }
}

/// The mark of a favorite or of a recently used item.
pub open spec fn badge(item: MenuItem, recents: Seq<Seq<char>>) -> Seq<char> {
    if item.favorite {
        "★"@
    } else if recents.contains(item.stable_id@) {
        "↻"@
    } else {
        " "@
    }
}

/// The row of an item, before it is cut to the width of the screen.
pub open spec fn full_line(
    config: MenuConfig,
    recents: Seq<Seq<char>>,
    item: MenuItem,
    selected: bool,
) -> Seq<char> {
    (if selected {
        "›"@
    } else {
        " "@
    }) + " "@ + badge(item, recents) + " "@ + binding_column(config, item) + item.label@ + (
    match item.group {
        Some(group) => "  · "@ + group@,
        None => Seq::empty(),
    })
}

/// The row of an item as it is written. The selected row fills the screen.
pub open spec fn item_line(
    config: MenuConfig,
    recents: Seq<Seq<char>>,
    item: MenuItem,
    selected: bool,
    width: nat,
) -> Seq<char> {
    let line = text::truncated(full_line(config, recents, item, selected), width);
    if selected {
        padded(line, width)
    } else {
        line
    }
}

/// The style of the selected row.
pub open spec fn selected_style(config: MenuConfig) -> Seq<Draw<Seq<char>>> {
    seq![
        Draw::Foreground(config.selected_foreground),
        Draw::Background(config.selected_background),
    ] + (if config.selected_bold {
        seq![Draw::Bold]
    } else {
        Seq::empty()
    })
}

/// The visible row number `visible`.
pub open spec fn row_part(config: MenuConfig, scene: Scene, screen: Screen, visible: int) -> Seq<
    Draw<Seq<char>>,
> {
    let position = first_visible(scene, screen) + visible;
    let item = config.items@[scene.ordered[position] as int];
    let selected = position == scene.selected;
    at_row(visible + 4) + styled(
        screen,
        if selected {
            selected_style(config)
        } else {
            Seq::empty()
        },
        item_line(config, scene.recents, item, selected, screen.width()),
    )
}

/// The first `count` visible rows.
pub open spec fn rows_part(config: MenuConfig, scene: Scene, screen: Screen, count: int) -> Seq<
    Draw<Seq<char>>,
>
    decreases count,
{
    if count <= 0 {
        Seq::empty()
    } else {
        rows_part(config, scene, screen, count - 1) + row_part(config, scene, screen, count - 1)
    }
}

/// What is said where nothing is listed.
pub open spec fn empty_part(scene: Scene, screen: Screen) -> Seq<Draw<Seq<char>>> {
    if scene.ordered.len() == 0 {
        at_row(4) + styled(screen, seq![Draw::Dim], "No matching commands"@)
    } else {
        Seq::empty()
    }
}

/// What is said of the selected item: its description, or else its command.
pub open spec fn description_of(item: MenuItem) -> Seq<char> {
    match item.description {
        Some(description) => description@,
        None => "Command: "@ + item.command.display(),
    }
}

pub open spec fn description_part(config: MenuConfig, scene: Scene, screen: Screen) -> Seq<
    Draw<Seq<char>>,
> {
    at_row(screen.height() - 3) + (if scene.selected < scene.ordered.len() {
        styled(
            screen,
            seq![Draw::Dim],
            text::truncated(
                description_of(config.items@[scene.ordered[scene.selected] as int]),
                screen.width(),
            ),
        )
    } else {
        Seq::empty()
    })
}

pub open spec fn help_part(scene: Scene, screen: Screen) -> Seq<Draw<Seq<char>>> {
    at_row(screen.height() - 2) + styled(
        screen,
        seq![Draw::Dim],
        text::truncated(
            if scene.search_mode {
                "Type to filter • ↑/↓ select • PgUp/PgDn • Enter run • Esc clear/close"@
            } else {
                "↑/↓ or j/k • PgUp/PgDn • Home/End • / search • Enter run • q/Esc quit"@
            },
            screen.width(),
        ),
    )
}

/// How many items there are and which of them are visible.
pub open spec fn status_text(scene: Scene, screen: Screen) -> Seq<char> {
    let noun = if scene.search_mode {
        "matches"@
    } else {
        "commands"@
    };
    let count = text::decimal(scene.ordered.len());
    let first = first_visible(scene, screen);
    if scene.ordered.len() == 0 {
        "0 "@ + noun
    } else {
        count + " "@ + noun + " • items "@ + text::decimal((first + 1) as nat) + "–"@
            + text::decimal((first + visible_count(scene, screen)) as nat) + "/"@ + count
    }
}

pub open spec fn status_part(scene: Scene, screen: Screen) -> Seq<Draw<Seq<char>>> {
    at_row(screen.height() - 1) + (match scene.message {
        Some((message, failed)) => styled(
            screen,
            if failed {
                seq![Draw::Foreground(Color::Red)]
            } else {
                seq![Draw::Dim]
            },
            text::truncated(message, screen.width()),
        ),
        None => styled(
            screen,
            seq![Draw::Dim],
            text::truncated(status_text(scene, screen), screen.width()),
        ),
    })
}

/// Everything that is drawn, in order.
pub open spec fn picture(config: MenuConfig, scene: Scene, screen: Screen) -> Seq<Draw<Seq<char>>> {
    title_part(config, screen) + search_part(scene, screen) + rows_part(
        config,
        scene,
        screen,
        visible_count(scene, screen),
    ) + empty_part(scene, screen) + description_part(config, scene, screen) + help_part(
        scene,
        screen,
    ) + status_part(scene, screen)
}

// ---------------------------------------------------------------------------
// Drawing
// ---------------------------------------------------------------------------
fn push_step(out: &mut Vec<Draw<String>>, step: Draw<String>)
    ensures
        drawn(final(out)@) == drawn(old(out)@).push(shown(step)),
{
    out.push(step);
    assert(drawn(out@) == drawn(old(out)@).push(shown(step)));
}

fn push_row_start(out: &mut Vec<Draw<String>>, row: u16)
    ensures
        drawn(final(out)@) == drawn(old(out)@) + at_row(row as int),
{
    push_step(out, Draw::MoveTo { column: 0, row });
    assert(drawn(out@) == drawn(old(out)@) + at_row(row as int));
}

fn push_styled(
    out: &mut Vec<Draw<String>>,
    screen: Screen,
    style: Vec<Draw<String>>,
    text: String,
)
    ensures
        drawn(final(out)@) == drawn(old(out)@) + styled(screen, drawn(style@), text@),
{
    let ghost before = drawn(out@);
    if screen.colors {
        let mut style = style;
        let ghost look = drawn(style@);
        out.append(&mut style);
        assert(drawn(out@) == before + look);
        push_step(out, Draw::Text(text));
        push_step(out, Draw::ResetColor);
        push_step(out, Draw::ResetAttributes);
    } else {
        push_step(out, Draw::Text(text));
    }
    assert(drawn(out@) == before + styled(screen, drawn(style@), text@));
}

fn dim() -> (style: Vec<Draw<String>>)
    ensures
        drawn(style@) == seq![Draw::<Seq<char>>::Dim],
{
    let mut style: Vec<Draw<String>> = Vec::new();
    push_step(&mut style, Draw::Dim);
    assert(drawn(style@) == seq![Draw::<Seq<char>>::Dim]);
    style
}

fn repeat(character: char, count: usize) -> (value: String)
    ensures
        value@ == repeated(character, count as nat),
{
    let mut value = String::new();
    let mut written: usize = 0;
    while written < count
        invariant
            written <= count,
            value@ == repeated(character, written as nat),
        decreases count - written,
    {
        value.push(character);
        written = written + 1;
    }
    value
}

fn pad(value: String, width: usize) -> (wide: String)
    ensures
        wide@ == padded(value@, width as nat),
{
    let length = value.as_str().unicode_len();
    if length < width {
        joined(value.as_str(), repeat(' ', width - length).as_str())
    } else {
        value
    }
}

impl Screen {
    fn used_width(&self) -> (width: usize)
        ensures
            width == self.width(),
    {
        if self.columns < 20 {
            20
        } else {
            self.columns as usize
        }
    }

    fn used_height(&self) -> (height: u16)
        ensures
            height == self.height(),
    {
        if self.rows < 10 {
            10
        } else {
            self.rows
        }
    }
}

fn draw_title(out: &mut Vec<Draw<String>>, config: &MenuConfig, screen: Screen)
    ensures
        drawn(final(out)@) == drawn(old(out)@) + title_part(*config, screen),
{
    let ghost before = drawn(out@);
    let width = screen.used_width();
    push_step(out, Draw::ClearScreen);
    push_step(out, Draw::MoveTo { column: 0, row: 0 });
    push_step(out, Draw::HideCursor);
    let mut style: Vec<Draw<String>> = Vec::new();
    push_step(&mut style, Draw::Foreground(Color::Cyan));
    push_step(&mut style, Draw::Bold);
    assert(drawn(style@) == seq![Draw::<Seq<char>>::Foreground(Color::Cyan), Draw::Bold]);
    push_styled(out, screen, style, truncate_text(config.title.as_str(), width));
    push_row_start(out, 1);
    let length = config.title.as_str().unicode_len();
    let wanted: usize = if length < 12 {
        12
    } else {
        length
    };
    let rule: usize = if wanted < width {
        wanted
    } else {
        width
    };
    push_styled(out, screen, dim(), repeat('─', rule));
    assert(drawn(out@) == before + title_part(*config, screen));
}

fn draw_search(
    out: &mut Vec<Draw<String>>,
    search_mode: bool,
    query: &str,
    screen: Screen,
    Ghost(scene): Ghost<Scene>,
)
    requires
        scene.search_mode == search_mode,
        scene.query == query@,
    ensures
        drawn(final(out)@) == drawn(old(out)@) + search_part(scene, screen),
{
    let ghost before = drawn(out@);
    push_row_start(out, 2);
    let line = if search_mode {
        let mut line = joined("Search: ", query);
        line.append("_");
        truncate_text(line.as_str(), screen.used_width())
    } else {
        "Press / to search".to_owned()
    };
    push_styled(out, screen, dim(), line);
    assert(drawn(out@) == before + search_part(scene, screen));
}

fn show_binding(config: &MenuConfig, item: &MenuItem) -> (shown: String)
    ensures
        shown@ == shown_binding(*config, *item),
{
    match &item.key {
        Some(key) => format_binding(config.key_format.as_str(), key.as_str()),
        None => String::new(),
    }
}

fn measure_bindings(config: &MenuConfig) -> (width: usize)
    ensures
        width == binding_width(*config),
{
    let mut width: usize = 0;
    let mut next: usize = 0;
    while next < config.items.len()
        invariant
            next <= config.items@.len(),
            width == widest_binding(*config, next as int),
        decreases config.items@.len() - next,
    {
        let found = show_binding(config, &config.items[next]).as_str().unicode_len();
        if width < found {
            width = found;
        }
        next = next + 1;
    }
    width
}

fn make_line(
    config: &MenuConfig,
    recents: &RecentStore,
    item: &MenuItem,
    selected: bool,
    bindings: usize,
    width: usize,
) -> (line: String)
    requires
        bindings == binding_width(*config),
    ensures
        line@ == item_line(*config, recents.list(), *item, selected, width as nat),
{
    let mut line = if selected {
        "›".to_owned()
    } else {
        " ".to_owned()
    };
    line.append(" ");
    if item.favorite {
        line.append("★");
    } else if recents.contains(item.stable_id.as_str()) {
        line.append("↻");
    } else {
        line.append(" ");
    }
    line.append(" ");
    let column = if bindings == 0 {
        String::new()
    } else {
        joined(pad(show_binding(config, item), bindings).as_str(), " ")
    };
    line.append(column.as_str());
    line.append(item.label.as_str());
    if let Some(group) = &item.group {
        line.append("  · ");
        line.append(group.as_str());
    }
    assert(line@ == full_line(*config, recents.list(), *item, selected));
    let cut = truncate_text(line.as_str(), width);
    if selected {
        pad(cut, width)
    } else {
        cut
    }
}

fn make_selected_style(config: &MenuConfig) -> (style: Vec<Draw<String>>)
    ensures
        drawn(style@) == selected_style(*config),
{
    let mut style: Vec<Draw<String>> = Vec::new();
    push_step(&mut style, Draw::Foreground(config.selected_foreground));
    push_step(&mut style, Draw::Background(config.selected_background));
    if config.selected_bold {
        push_step(&mut style, Draw::Bold);
    }
    assert(drawn(style@) == selected_style(*config));
    style
}

/// The scene that the arguments of `render` describe.
pub open spec fn scene_of(
    ordered: Seq<usize>,
    selected: usize,
    search_mode: bool,
    query: Seq<char>,
    recents: RecentStore,
    message: Option<(&str, bool)>,
) -> Scene {
    Scene {
        ordered,
        selected: selected as int,
        search_mode,
        query,
        recents: recents.list(),
        message: match message {
            Some((text, failed)) => Some((text@, failed)),
            None => None,
        },
    }
}

fn draw_description(
    out: &mut Vec<Draw<String>>,
    config: &MenuConfig,
    ordered: &Vec<usize>,
    selected: usize,
    screen: Screen,
    Ghost(scene): Ghost<Scene>,
)
    requires
        forall|i: int| 0 <= i < ordered@.len() ==> #[trigger] ordered@[i] < config.items@.len(),
        scene.ordered == ordered@,
        scene.selected == selected,
    ensures
        drawn(final(out)@) == drawn(old(out)@) + description_part(*config, scene, screen),
{
    let ghost before = drawn(out@);
    push_row_start(out, screen.used_height() - 3);
    if selected < ordered.len() {
        let item = &config.items[ordered[selected]];
        let description = match &item.description {
            Some(description) => description.clone(),
            None => joined("Command: ", command_display(&item.command).as_str()),
        };
        push_styled(
            out,
            screen,
            dim(),
            truncate_text(description.as_str(), screen.used_width()),
        );
    }
    assert(drawn(out@) == before + description_part(*config, scene, screen));
}

fn draw_help(
    out: &mut Vec<Draw<String>>,
    search_mode: bool,
    screen: Screen,
    Ghost(scene): Ghost<Scene>,
)
    requires
        scene.search_mode == search_mode,
    ensures
        drawn(final(out)@) == drawn(old(out)@) + help_part(scene, screen),
{
    let ghost before = drawn(out@);
    push_row_start(out, screen.used_height() - 2);
    let help = if search_mode {
        "Type to filter • ↑/↓ select • PgUp/PgDn • Enter run • Esc clear/close"
    } else {
        "↑/↓ or j/k • PgUp/PgDn • Home/End • / search • Enter run • q/Esc quit"
    };
    push_styled(out, screen, dim(), truncate_text(help, screen.used_width()));
    assert(drawn(out@) == before + help_part(scene, screen));
}

fn make_status(
    listed: usize,
    first: usize,
    count: usize,
    search_mode: bool,
    screen: Screen,
    Ghost(scene): Ghost<Scene>,
) -> (status: String)
    requires
        scene.ordered.len() == listed,
        scene.search_mode == search_mode,
        first == first_visible(scene, screen),
        count == visible_count(scene, screen),
        first + count <= listed,
    ensures
        status@ == status_text(scene, screen),
{
    let noun = if search_mode {
        "matches"
    } else {
        "commands"
    };
    if listed == 0 {
        return joined("0 ", noun);
    }
    let mut status = String::new();
    push_decimal(&mut status, listed as u64);
    status.append(" ");
    status.append(noun);
    status.append(" • items ");
    push_decimal(&mut status, first as u64 + 1);
    status.append("–");
    push_decimal(&mut status, (first + count) as u64);
    status.append("/");
    push_decimal(&mut status, listed as u64);
    assert(status@ == status_text(scene, screen));
    status
}

/// Draws the menu: the title, the search line, the visible items around the
/// selected one, what is known of it, the help and the status. `message` is shown
/// in place of the status, in red where it reports a failure.
pub fn render(
    config: &MenuConfig,
    ordered: &Vec<usize>,
    selected: usize,
    search_mode: bool,
    query: &str,
    recents: &RecentStore,
    message: Option<(&str, bool)>,
    screen: Screen,
) -> (steps: Vec<Draw<String>>)
    requires
        forall|i: int| 0 <= i < ordered@.len() ==> #[trigger] ordered@[i] < config.items@.len(),
    ensures
        drawn(steps@) == picture(
            *config,
            scene_of(ordered@, selected, search_mode, query@, *recents, message),
            screen,
        ),
{
    let ghost scene = scene_of(ordered@, selected, search_mode, query@, *recents, message);
    let width = screen.used_width();
    let capacity: usize = (screen.used_height() - 8) as usize;
    let count: usize = if ordered.len() < capacity {
        ordered.len()
    } else {
        capacity
    };
    let last_start: usize = ordered.len() - count;
    let centered: usize = if selected < count / 2 {
        0
    } else {
        selected - count / 2
    };
    let first: usize = if centered < last_start {
        centered
    } else {
        last_start
    };
    assert(count == visible_count(scene, screen));
    assert(first == first_visible(scene, screen));
    let bindings = measure_bindings(config);

    let mut out: Vec<Draw<String>> = Vec::new();
    assert(drawn(out@) == Seq::<Draw<Seq<char>>>::empty());
    draw_title(&mut out, config, screen);
    draw_search(&mut out, search_mode, query, screen, Ghost(scene));
    let ghost head = title_part(*config, screen) + search_part(scene, screen);
    assert(drawn(out@) == head + rows_part(*config, scene, screen, 0));
    let mut visible: usize = 0;
    while visible < count
        invariant
            scene == scene_of(ordered@, selected, search_mode, query@, *recents, message),
            forall|i: int|
                0 <= i < ordered@.len() ==> #[trigger] ordered@[i] < config.items@.len(),
            width == screen.width(),
            bindings == binding_width(*config),
            count == visible_count(scene, screen),
            first == first_visible(scene, screen),
            first + count <= ordered@.len() <= usize::MAX,
            visible <= count <= screen.height() - 8,
            drawn(out@) == head + rows_part(*config, scene, screen, visible as int),
        decreases count - visible,
    {
        let ghost before = drawn(out@);
        let position: usize = first + visible;
        let item = &config.items[ordered[position]];
        push_row_start(&mut out, (visible + 4) as u16);
        let style = if position == selected {
            make_selected_style(config)
        } else {
            let style: Vec<Draw<String>> = Vec::new();
            assert(drawn(style@) == Seq::<Draw<Seq<char>>>::empty());
            style
        };
        let line = make_line(config, recents, item, position == selected, bindings, width);
        push_styled(&mut out, screen, style, line);
        proof {
            assert(drawn(out@) == before + row_part(*config, scene, screen, visible as int));
            assert(drawn(out@) == head + rows_part(*config, scene, screen, visible + 1));
        }
        visible = visible + 1;
    }
    let ghost body = head + rows_part(*config, scene, screen, count as int);
    if ordered.len() == 0 {
        push_row_start(&mut out, 4);
        push_styled(&mut out, screen, dim(), "No matching commands".to_owned());
    }
    assert(drawn(out@) == body + empty_part(scene, screen));
    draw_description(&mut out, config, ordered, selected, screen, Ghost(scene));
    draw_help(&mut out, search_mode, screen, Ghost(scene));
    let ghost above = drawn(out@);
    push_row_start(&mut out, screen.used_height() - 1);
    match message {
        Some((report, failed)) => {
            let style = if failed {
                let mut style: Vec<Draw<String>> = Vec::new();
                push_step(&mut style, Draw::Foreground(Color::Red));
                assert(drawn(style@) == seq![Draw::<Seq<char>>::Foreground(Color::Red)]);
                style
            } else {
                dim()
            };
            push_styled(&mut out, screen, style, truncate_text(report, width));
        },
        None => {
            let status = make_status(
                ordered.len(),
                first,
                count,
                search_mode,
                screen,
                Ghost(scene),
            );
            push_styled(&mut out, screen, dim(), truncate_text(status.as_str(), width));
        },
    }
    assert(drawn(out@) == above + status_part(scene, screen));
    out
}

// ---------------------------------------------------------------------------
// Prompts
// ---------------------------------------------------------------------------
/// A question in the last row of a terminal of this size, row 23 where the size is
/// not known.
pub open spec fn prompt(size: Option<(u16, u16)>, question: Seq<char>) -> Seq<Draw<Seq<char>>> {
    let row = match size {
        Some((_, rows)) => if rows == 0 {
            0
        } else {
            rows - 1
        },
        None => 23,
    };
    at_row(row) + seq![Draw::ClearLine, Draw::Text(question)]
}

/// What is asked before an item runs that has to be confirmed.
pub open spec fn confirm_question(item: MenuItem) -> Seq<char> {
    "Run '"@ + item.label@ + "'? [y/N] "@
}

fn draw_prompt(size: Option<(u16, u16)>, question: String) -> (steps: Vec<Draw<String>>)
    ensures
        drawn(steps@) == prompt(size, question@),
{
    let row: u16 = match size {
        Some((_, rows)) => if rows == 0 {
            0
        } else {
            rows - 1
        },
        None => 23,
    };
    let mut steps: Vec<Draw<String>> = Vec::new();
    push_row_start(&mut steps, row);
    push_step(&mut steps, Draw::ClearLine);
    push_step(&mut steps, Draw::Text(question));
    assert(drawn(steps@) == prompt(size, question@));
    steps
}

/// Asks whether `item` is to run.
pub fn confirm_prompt(item: &MenuItem, size: Option<(u16, u16)>) -> (steps: Vec<Draw<String>>)
    ensures
        drawn(steps@) == prompt(size, confirm_question(*item)),
{
    let mut question = joined("Run '", item.label.as_str());
    question.append("'? [y/N] ");
    draw_prompt(size, question)
}

/// Asks for a key before the menu is shown again.
pub fn return_prompt(size: Option<(u16, u16)>) -> (steps: Vec<Draw<String>>)
    ensures
        drawn(steps@) == prompt(size, "Press any key to return to the menu..."@),
{
    draw_prompt(size, "Press any key to return to the menu...".to_owned())
}

// ---------------------------------------------------------------------------
// Laws
// ---------------------------------------------------------------------------
/// The step changes how later text looks.
pub open spec fn changes_style(step: Draw<Seq<char>>) -> bool {
    step is Foreground || step is Background || step is Bold || step is Dim || step is ResetColor
        || step is ResetAttributes
}

/// The step stays on the screen: what is written fits into a row, and every row
/// that is gone to exists.
pub open spec fn stays_on(step: Draw<Seq<char>>, screen: Screen) -> bool {
    match step {
        Draw::Text(text) => text.len() <= screen.width(),
        Draw::MoveTo { column, row } => column == 0 && row < screen.height(),
        _ => true,
    }
}

/// All of the steps stay on the screen, and without colors none of them changes
/// the style.
pub open spec fn suits(steps: Seq<Draw<Seq<char>>>, screen: Screen) -> bool {
    forall|i: int|
        0 <= i < steps.len() ==> stays_on(#[trigger] steps[i], screen) && (changes_style(steps[i])
            ==> screen.colors)
}

proof fn lemma_suits_both(
    first: Seq<Draw<Seq<char>>>,
    second: Seq<Draw<Seq<char>>>,
    screen: Screen,
)
    requires
        suits(first, screen),
        suits(second, screen),
    ensures
        suits(first + second, screen),
{
    let both = first + second;
    assert forall|i: int| 0 <= i < both.len() implies stays_on(#[trigger] both[i], screen) && (
    changes_style(both[i]) ==> screen.colors) by {
        if i < first.len() {
            assert(both[i] == first[i]);
        } else {
            assert(both[i] == second[i - first.len()]);
        }
    }
}

proof fn lemma_styled_suits(screen: Screen, style: Seq<Draw<Seq<char>>>, text: Seq<char>)
    requires
        text.len() <= screen.width(),
        forall|i: int| 0 <= i < style.len() ==> changes_style(#[trigger] style[i]),
    ensures
        suits(styled(screen, style, text), screen),
{
    let steps = styled(screen, style, text);
    if screen.colors {
        assert forall|i: int| 0 <= i < steps.len() implies stays_on(#[trigger] steps[i], screen) by {
            if i < style.len() {
                assert(steps[i] == style[i]);
            }
        }
    }
}

proof fn lemma_rows_suit(config: MenuConfig, scene: Scene, screen: Screen, count: int)
    requires
        0 <= count <= visible_count(scene, screen),
    ensures
        suits(rows_part(config, scene, screen, count), screen),
    decreases count,
{
    if count > 0 {
        let visible = count - 1;
        lemma_rows_suit(config, scene, screen, visible);
        let position = first_visible(scene, screen) + visible;
        let item = config.items@[scene.ordered[position] as int];
        let selected = position == scene.selected;
        let style = if selected {
            selected_style(config)
        } else {
            Seq::empty()
        };
        let line = item_line(config, scene.recents, item, selected, screen.width());
        the_selected_row_fills_the_screen(config, scene.recents, item, screen);
        lemma_styled_suits(screen, style, line);
        assert(suits(at_row(visible + 4), screen));
        lemma_suits_both(at_row(visible + 4), styled(screen, style, line), screen);
        lemma_suits_both(
            rows_part(config, scene, screen, visible),
            row_part(config, scene, screen, visible),
            screen,
        );
    }
}

/// Whatever is shown, it stays on the screen; and without colors, as when
/// `NO_COLOR` is set, nothing is styled.
pub proof fn the_picture_suits_the_screen(config: MenuConfig, scene: Scene, screen: Screen)
    requires
        0 <= scene.selected,
    ensures
        suits(picture(config, scene, screen), screen),
{
    reveal_strlit("Press / to search");
    reveal_strlit("No matching commands");
    let dim = seq![Draw::<Seq<char>>::Dim];
    let top = seq![
        Draw::<Seq<char>>::ClearScreen,
        Draw::MoveTo { column: 0, row: 0 },
        Draw::HideCursor,
    ];
    let bright = seq![Draw::<Seq<char>>::Foreground(Color::Cyan), Draw::Bold];
    let title = text::truncated(config.title@, screen.width());
    lemma_styled_suits(screen, bright, title);
    assert(suits(top, screen));
    lemma_suits_both(top, styled(screen, bright, title), screen);
    assert(suits(at_row(1), screen));
    lemma_suits_both(top + styled(screen, bright, title), at_row(1), screen);
    let length = config.title@.len();
    let wanted: nat = if length < 12 {
        12
    } else {
        length
    };
    let rule = repeated(
        '─',
        if wanted < screen.width() {
            wanted
        } else {
            screen.width()
        },
    );
    lemma_styled_suits(screen, dim, rule);
    lemma_suits_both(
        top + styled(screen, bright, title) + at_row(1),
        styled(screen, dim, rule),
        screen,
    );
    let mut whole = title_part(config, screen);

    let line = if scene.search_mode {
        text::truncated("Search: "@ + scene.query + "_"@, screen.width())
    } else {
        "Press / to search"@
    };
    lemma_styled_suits(screen, dim, line);
    assert(suits(at_row(2), screen));
    lemma_suits_both(at_row(2), styled(screen, dim, line), screen);
    lemma_suits_both(whole, search_part(scene, screen), screen);
    whole = whole + search_part(scene, screen);

    let count = visible_count(scene, screen);
    lemma_rows_suit(config, scene, screen, count);
    lemma_suits_both(whole, rows_part(config, scene, screen, count), screen);
    whole = whole + rows_part(config, scene, screen, count);

    lemma_styled_suits(screen, dim, "No matching commands"@);
    assert(suits(at_row(4), screen));
    lemma_suits_both(at_row(4), styled(screen, dim, "No matching commands"@), screen);
    lemma_suits_both(whole, empty_part(scene, screen), screen);
    whole = whole + empty_part(scene, screen);

    let third_last = at_row(screen.height() - 3);
    assert(suits(third_last, screen));
    if scene.selected < scene.ordered.len() {
        let description = text::truncated(
            description_of(config.items@[scene.ordered[scene.selected] as int]),
            screen.width(),
        );
        lemma_styled_suits(screen, dim, description);
        lemma_suits_both(third_last, styled(screen, dim, description), screen);
    } else {
        assert(third_last + Seq::<Draw<Seq<char>>>::empty() == third_last);
    }
    lemma_suits_both(whole, description_part(config, scene, screen), screen);
    whole = whole + description_part(config, scene, screen);

    let help = text::truncated(
        if scene.search_mode {
            "Type to filter • ↑/↓ select • PgUp/PgDn • Enter run • Esc clear/close"@
        } else {
            "↑/↓ or j/k • PgUp/PgDn • Home/End • / search • Enter run • q/Esc quit"@
        },
        screen.width(),
    );
    let second_last = at_row(screen.height() - 2);
    assert(suits(second_last, screen));
    lemma_styled_suits(screen, dim, help);
    lemma_suits_both(second_last, styled(screen, dim, help), screen);
    lemma_suits_both(whole, help_part(scene, screen), screen);
    whole = whole + help_part(scene, screen);

    let last = at_row(screen.height() - 1);
    assert(suits(last, screen));
    let style = match scene.message {
        Some((_, true)) => seq![Draw::<Seq<char>>::Foreground(Color::Red)],
        _ => dim,
    };
    let status = match scene.message {
        Some((message, _)) => text::truncated(message, screen.width()),
        None => text::truncated(status_text(scene, screen), screen.width()),
    };
    lemma_styled_suits(screen, style, status);
    lemma_suits_both(last, styled(screen, style, status), screen);
    assert(status_part(scene, screen) == last + styled(screen, style, status));
    lemma_suits_both(whole, status_part(scene, screen), screen);
}

/// The selected item is among the visible ones, and all visible ones are listed.
pub proof fn the_selected_item_is_visible(scene: Scene, screen: Screen)
    requires
        0 <= scene.selected < scene.ordered.len(),
    ensures
        ({
            let first = first_visible(scene, screen);
            let behind = first + visible_count(scene, screen);
            0 <= first <= scene.selected < behind <= scene.ordered.len()
        }),
{
}

/// A page is as many items as are visible at once where there are enough.
pub proof fn a_page_is_what_is_visible(size: Option<(u16, u16)>, colors: bool, scene: Scene)
    ensures
        visible_count(scene, Screen::of_size(size, colors)) == (if scene.ordered.len()
            < page_items(size) {
            scene.ordered.len() as int
        } else {
            page_items(size)
        }),
{
}

proof fn lemma_widest_binding(config: MenuConfig, index: int, count: int)
    requires
        0 <= index < count <= config.items@.len(),
    ensures
        shown_binding(config, config.items@[index]).len() <= widest_binding(config, count),
    decreases count,
{
    if index < count - 1 {
        lemma_widest_binding(config, index, count - 1);
    }
}

/// The labels of all rows start in the same column, whether an item has a binding
/// or not.
pub proof fn bindings_are_aligned(config: MenuConfig, index: int, other: int)
    requires
        0 <= index < config.items@.len(),
        0 <= other < config.items@.len(),
    ensures
        binding_column(config, config.items@[index]).len() == binding_column(
            config,
            config.items@[other],
        ).len(),
{
    lemma_widest_binding(config, index, config.items@.len() as int);
    lemma_widest_binding(config, other, config.items@.len() as int);
}

/// The selected row is as wide as the screen, and no row is wider.
pub proof fn the_selected_row_fills_the_screen(
    config: MenuConfig,
    recents: Seq<Seq<char>>,
    item: MenuItem,
    screen: Screen,
)
    ensures
        item_line(config, recents, item, true, screen.width()).len() == screen.width(),
        item_line(config, recents, item, false, screen.width()).len() <= screen.width(),
{
}

// ---------------------------------------------------------------------------
// What is to be seen
// ---------------------------------------------------------------------------
/// How text looks.
pub struct Look {
    pub foreground: Option<Color>,
    pub background: Option<Color>,
    pub bold: bool,
    pub dim: bool,
}

/// Text in no style.
pub open spec fn plain() -> Look {
    Look { foreground: None, background: None, bold: false, dim: false }
}

/// Dim text where there are colors.
spec fn dimmed(screen: Screen) -> Look {
    Look { dim: screen.colors, ..plain() }
}

/// A text on the screen: in which row it starts at the left, how it looks and what it
/// says.
pub struct Sight {
    pub row: int,
    pub look: Look,
    pub text: Seq<char>,
}

/// A screen that is drawn on: where the next text comes, how it will look, and what is
/// to be seen already, in the order in which it was written.
pub struct Canvas {
    pub row: int,
    pub look: Look,
    pub cursor_hidden: bool,
    pub sights: Seq<Sight>,
}

/// What one step does to the screen.
pub open spec fn painted(canvas: Canvas, step: Draw<Seq<char>>) -> Canvas {
    match step {
        Draw::ClearScreen => Canvas { sights: Seq::empty(), ..canvas },
        Draw::ClearLine => Canvas {
            sights: canvas.sights.filter(|sight: Sight| sight.row != canvas.row),
            ..canvas
        },
        Draw::MoveTo { row, .. } => Canvas { row: row as int, ..canvas },
        Draw::HideCursor => Canvas { cursor_hidden: true, ..canvas },
        Draw::Foreground(color) => Canvas {
            look: Look { foreground: Some(color), ..canvas.look },
            ..canvas
        },
        Draw::Background(color) => Canvas {
            look: Look { background: Some(color), ..canvas.look },
            ..canvas
        },
        Draw::Bold => Canvas { look: Look { bold: true, ..canvas.look }, ..canvas },
        Draw::Dim => Canvas { look: Look { dim: true, ..canvas.look }, ..canvas },
        Draw::ResetColor => Canvas {
            look: Look { foreground: None, background: None, ..canvas.look },
            ..canvas
        },
        Draw::ResetAttributes => Canvas {
            look: Look { bold: false, dim: false, ..canvas.look },
            ..canvas
        },
        Draw::Text(text) => Canvas {
            sights: canvas.sights.push(Sight { row: canvas.row, look: canvas.look, text }),
            ..canvas
        },
    }
}

/// What several steps do to the screen.
pub open spec fn paint(canvas: Canvas, steps: Seq<Draw<Seq<char>>>) -> Canvas
    decreases steps.len(),
{
    if steps.len() == 0 {
        canvas
    } else {
        painted(paint(canvas, steps.drop_last()), steps.last())
    }
}

proof fn lemma_paint_both(canvas: Canvas, first: Seq<Draw<Seq<char>>>, second: Seq<Draw<Seq<char>>>)
    ensures
        paint(canvas, first + second) == paint(paint(canvas, first), second),
    decreases second.len(),
{
    if second.len() == 0 {
        assert(first + second == first);
    } else {
        assert((first + second).drop_last() == first + second.drop_last());
        lemma_paint_both(canvas, first, second.drop_last());
    }
}

proof fn lemma_paint_push(canvas: Canvas, steps: Seq<Draw<Seq<char>>>, step: Draw<Seq<char>>)
    ensures
        paint(canvas, steps.push(step)) == painted(paint(canvas, steps), step),
{
    assert(steps.push(step).drop_last() == steps);
}

proof fn lemma_paint_one(canvas: Canvas, step: Draw<Seq<char>>)
    ensures
        paint(canvas, seq![step]) == painted(canvas, step),
{
    let nothing = Seq::<Draw<Seq<char>>>::empty();
    lemma_paint_push(canvas, nothing, step);
    assert(nothing.push(step) == seq![step]);
}

/// A text in a style is seen in this style, and what comes behind it is plain again.
proof fn lemma_paint_styled(
    canvas: Canvas,
    screen: Screen,
    style: Seq<Draw<Seq<char>>>,
    look: Look,
    text: Seq<char>,
)
    requires
        canvas.look == plain(),
        paint(canvas, style) == (Canvas { look, ..canvas }),
    ensures
        paint(canvas, styled(screen, style, text)) == (Canvas {
            sights: canvas.sights.push(
                Sight {
                    row: canvas.row,
                    look: if screen.colors {
                        look
                    } else {
                        plain()
                    },
                    text,
                },
            ),
            ..canvas
        }),
{
    if screen.colors {
        let one = style.push(Draw::Text(text));
        let two = one.push(Draw::ResetColor);
        let three = two.push(Draw::ResetAttributes);
        lemma_paint_push(canvas, style, Draw::Text(text));
        lemma_paint_push(canvas, one, Draw::ResetColor);
        lemma_paint_push(canvas, two, Draw::ResetAttributes);
        assert(styled(screen, style, text) == three);
    } else {
        lemma_paint_one(canvas, Draw::Text(text));
    }
}

/// A text in a style at the start of a row.
proof fn lemma_paint_row(
    canvas: Canvas,
    screen: Screen,
    row: int,
    style: Seq<Draw<Seq<char>>>,
    look: Look,
    text: Seq<char>,
)
    requires
        canvas.look == plain(),
        0 <= row <= u16::MAX,
        paint(Canvas { row, ..canvas }, style) == (Canvas { row, look, ..canvas }),
    ensures
        paint(canvas, at_row(row) + styled(screen, style, text)) == (Canvas {
            row,
            sights: canvas.sights.push(
                Sight {
                    row,
                    look: if screen.colors {
                        look
                    } else {
                        plain()
                    },
                    text,
                },
            ),
            ..canvas
        }),
{
    lemma_paint_both(canvas, at_row(row), styled(screen, style, text));
    lemma_paint_one(canvas, Draw::MoveTo { column: 0, row: row as u16 });
    lemma_paint_styled(Canvas { row, ..canvas }, screen, style, look, text);
}

proof fn lemma_paint_dim(canvas: Canvas)
    requires
        canvas.look == plain(),
    ensures
        paint(canvas, seq![Draw::Dim]) == (Canvas {
            look: Look { dim: true, ..plain() },
            ..canvas
        }),
{
    lemma_paint_one(canvas, Draw::Dim);
}

proof fn lemma_paint_color(canvas: Canvas, color: Color)
    requires
        canvas.look == plain(),
    ensures
        paint(canvas, seq![Draw::Foreground(color)]) == (Canvas {
            look: Look { foreground: Some(color), ..plain() },
            ..canvas
        }),
        paint(canvas, seq![Draw::Foreground(color), Draw::Bold]) == (Canvas {
            look: Look { foreground: Some(color), bold: true, ..plain() },
            ..canvas
        }),
{
    lemma_paint_one(canvas, Draw::Foreground(color));
    let one = seq![Draw::<Seq<char>>::Foreground(color)];
    lemma_paint_push(canvas, one, Draw::Bold);
    assert(one.push(Draw::Bold) == seq![Draw::<Seq<char>>::Foreground(color), Draw::Bold]);
}

proof fn lemma_paint_selected(canvas: Canvas, config: MenuConfig)
    requires
        canvas.look == plain(),
    ensures
        paint(canvas, selected_style(config)) == (Canvas {
            look: Look {
                foreground: Some(config.selected_foreground),
                background: Some(config.selected_background),
                bold: config.selected_bold,
                dim: false,
            },
            ..canvas
        }),
{
    lemma_paint_one(canvas, Draw::Foreground(config.selected_foreground));
    let one = seq![Draw::<Seq<char>>::Foreground(config.selected_foreground)];
    lemma_paint_push(canvas, one, Draw::Background(config.selected_background));
    let two = one.push(Draw::Background(config.selected_background));
    lemma_paint_push(canvas, two, Draw::Bold);
    if config.selected_bold {
        assert(selected_style(config) == two.push(Draw::Bold));
    } else {
        assert(selected_style(config) == two);
    }
}

/// The first of the listed items that is visible, where the selected one has as many
/// visible items before it as behind it, as far as the ends of the listing allow.
spec fn window_start(listed: int, visible: int, selected: int) -> int {
    vstd::math::min(vstd::math::max(selected - visible / 2, 0), listed - visible)
}

/// What is to be seen of the listed item number `position` in the row `row`.
spec fn row_sight(
    config: MenuConfig,
    scene: Scene,
    screen: Screen,
    position: int,
    row: int,
) -> Sight {
    let chosen = position == scene.selected;
    Sight {
        row,
        look: if chosen && screen.colors {
            Look {
                foreground: Some(config.selected_foreground),
                background: Some(config.selected_background),
                bold: config.selected_bold,
                dim: false,
            }
        } else {
            plain()
        },
        text: item_line(
            config,
            scene.recents,
            config.items@[scene.ordered[position] as int],
            chosen,
            vstd::math::max(screen.columns as int, 20) as nat,
        ),
    }
}

proof fn lemma_paint_rows(
    canvas: Canvas,
    config: MenuConfig,
    scene: Scene,
    screen: Screen,
    count: int,
)
    requires
        canvas.look == plain(),
        0 <= count <= visible_count(scene, screen),
    ensures
        ({
            let after = paint(canvas, rows_part(config, scene, screen, count));
            &&& after.look == plain()
            &&& after.cursor_hidden == canvas.cursor_hidden
            &&& after.sights == canvas.sights + Seq::new(
                count as nat,
                |visible: int|
                    row_sight(
                        config,
                        scene,
                        screen,
                        first_visible(scene, screen) + visible,
                        visible + 4,
                    ),
            )
        }),
    decreases count,
{
    let sight = |visible: int|
        row_sight(config, scene, screen, first_visible(scene, screen) + visible, visible + 4);
    if count > 0 {
        let visible = count - 1;
        let position = first_visible(scene, screen) + visible;
        lemma_paint_rows(canvas, config, scene, screen, visible);
        lemma_paint_both(
            canvas,
            rows_part(config, scene, screen, visible),
            row_part(config, scene, screen, visible),
        );
        let before = paint(canvas, rows_part(config, scene, screen, visible));
        let chosen = position == scene.selected;
        let style = if chosen {
            selected_style(config)
        } else {
            Seq::empty()
        };
        let look = if chosen {
            Look {
                foreground: Some(config.selected_foreground),
                background: Some(config.selected_background),
                bold: config.selected_bold,
                dim: false,
            }
        } else {
            plain()
        };
        lemma_paint_selected(Canvas { row: visible + 4, ..before }, config);
        lemma_paint_row(
            before,
            screen,
            visible + 4,
            style,
            look,
            item_line(
                config,
                scene.recents,
                config.items@[scene.ordered[position] as int],
                chosen,
                screen.width(),
            ),
        );
        assert(Seq::new(count as nat, sight) == Seq::new(visible as nat, sight).push(sight(visible)));
    } else {
        assert(Seq::new(count as nat, sight) == Seq::<Sight>::empty());
        assert(canvas.sights + Seq::<Sight>::empty() == canvas.sights);
    }
}

/// What is said where there is nothing to report.
spec fn count_line(scene: Scene, first: int, visible: int) -> Seq<char> {
    let listed = text::decimal(scene.ordered.len());
    let noun = if scene.search_mode {
        "matches"@
    } else {
        "commands"@
    };
    if scene.ordered.len() == 0 {
        "0 "@ + noun
    } else {
        listed + " "@ + noun + " • items "@ + text::decimal((first + 1) as nat) + "–"@
            + text::decimal((first + visible) as nat) + "/"@ + listed
    }
}

/// The columns that are drawn on: at least 20.
spec fn columns_used(screen: Screen) -> nat {
    vstd::math::max(screen.columns as int, 20) as nat
}

/// The rows that are drawn on: at least 10.
spec fn rows_used(screen: Screen) -> int {
    vstd::math::max(screen.rows as int, 10)
}

/// What is to be seen of the title, and the rule below it.
spec fn title_sights(config: MenuConfig, screen: Screen) -> Seq<Sight> {
    let width = columns_used(screen);
    seq![
        Sight {
            row: 0,
            look: if screen.colors {
                Look { foreground: Some(Color::Cyan), bold: true, ..plain() }
            } else {
                plain()
            },
            text: text::truncated(config.title@, width),
        },
        Sight {
            row: 1,
            look: dimmed(screen),
            text: Seq::new(
                vstd::math::min(vstd::math::max(config.title@.len() as int, 12), width as int)
                    as nat,
                |i: int| '─',
            ),
        },
    ]
}

/// What is to be seen of the search.
spec fn search_sight(scene: Scene, screen: Screen) -> Sight {
    Sight {
        row: 2,
        look: dimmed(screen),
        text: if scene.search_mode {
            text::truncated("Search: "@ + scene.query + "_"@, columns_used(screen))
        } else {
            "Press / to search"@
        },
    }
}

/// What is to be seen where nothing is listed.
spec fn nothing_sights(scene: Scene, screen: Screen) -> Seq<Sight> {
    if scene.ordered.len() == 0 {
        seq![Sight { row: 4, look: dimmed(screen), text: "No matching commands"@ }]
    } else {
        Seq::empty()
    }
}

/// What is to be seen of the selected item below the listing.
spec fn description_sights(config: MenuConfig, scene: Scene, screen: Screen) -> Seq<Sight> {
    if scene.selected < scene.ordered.len() {
        let item = config.items@[scene.ordered[scene.selected] as int];
        seq![
            Sight {
                row: rows_used(screen) - 3,
                look: dimmed(screen),
                text: text::truncated(
                    match item.description {
                        Some(description) => description@,
                        None => "Command: "@ + item.command.display(),
                    },
                    columns_used(screen),
                ),
            },
        ]
    } else {
        Seq::empty()
    }
}

/// What is to be seen of the help.
spec fn help_sight(scene: Scene, screen: Screen) -> Sight {
    Sight {
        row: rows_used(screen) - 2,
        look: dimmed(screen),
        text: text::truncated(
            if scene.search_mode {
                "Type to filter • ↑/↓ select • PgUp/PgDn • Enter run • Esc clear/close"@
            } else {
                "↑/↓ or j/k • PgUp/PgDn • Home/End • / search • Enter run • q/Esc quit"@
            },
            columns_used(screen),
        ),
    }
}

/// What is to be seen in the last row.
spec fn status_sight(scene: Scene, screen: Screen, first: int, visible: int) -> Sight {
    Sight {
        row: rows_used(screen) - 1,
        look: match scene.message {
            Some((_, true)) => if screen.colors {
                Look { foreground: Some(Color::Red), ..plain() }
            } else {
                plain()
            },
            _ => dimmed(screen),
        },
        text: text::truncated(
            match scene.message {
                Some((report, _)) => report,
                None => count_line(scene, first, visible),
            },
            columns_used(screen),
        ),
    }
}

/// Nothing but the place and what is to be seen has changed.
spec fn only_adds(before: Canvas, after: Canvas, sights: Seq<Sight>) -> bool {
    &&& after.look == plain()
    &&& after.cursor_hidden == before.cursor_hidden
    &&& after.sights == before.sights + sights
}

proof fn lemma_only_adds(first: Canvas, second: Canvas, third: Canvas, one: Seq<Sight>, other: Seq<Sight>)
    requires
        only_adds(first, second, one),
        only_adds(second, third, other),
    ensures
        only_adds(first, third, one + other),
{
    assert((first.sights + one) + other == first.sights + (one + other));
}

proof fn lemma_paint_dim_row(canvas: Canvas, screen: Screen, row: int, text: Seq<char>)
    requires
        canvas.look == plain(),
        0 <= row <= u16::MAX,
    ensures
        only_adds(
            canvas,
            paint(canvas, at_row(row) + styled(screen, seq![Draw::Dim], text)),
            seq![Sight { row, look: dimmed(screen), text }],
        ),
{
    lemma_paint_dim(Canvas { row, ..canvas });
    lemma_paint_row(
        canvas,
        screen,
        row,
        seq![Draw::Dim],
        Look { dim: true, ..plain() },
        text,
    );
    let sight = Sight { row, look: dimmed(screen), text };
    assert(canvas.sights.push(sight) == canvas.sights + seq![sight]);
}

proof fn lemma_paint_title(canvas: Canvas, config: MenuConfig, screen: Screen)
    requires
        canvas.look == plain(),
    ensures
        ({
            let after = paint(canvas, title_part(config, screen));
            &&& after.look == plain()
            &&& after.cursor_hidden
            &&& after.sights == title_sights(config, screen)
        }),
{
    let width = screen.width();
    let top = seq![
        Draw::<Seq<char>>::ClearScreen,
        Draw::MoveTo { column: 0, row: 0 },
        Draw::HideCursor,
    ];
    let bright = seq![Draw::<Seq<char>>::Foreground(Color::Cyan), Draw::Bold];
    let title = text::truncated(config.title@, width);
    let length = config.title@.len();
    let wanted: nat = if length < 12 {
        12
    } else {
        length
    };
    let rule_length: nat = if wanted < width {
        wanted
    } else {
        width
    };
    let rule = repeated('─', rule_length);
    let blank = Canvas { row: 0, look: plain(), cursor_hidden: true, sights: Seq::empty() };
    lemma_paint_one(canvas, Draw::ClearScreen);
    let top_one = seq![Draw::<Seq<char>>::ClearScreen];
    lemma_paint_push(canvas, top_one, Draw::MoveTo { column: 0, row: 0 });
    let top_two = top_one.push(Draw::MoveTo { column: 0, row: 0 });
    lemma_paint_push(canvas, top_two, Draw::HideCursor);
    assert(top_two.push(Draw::HideCursor) == top);
    assert(paint(canvas, top) == blank);
    lemma_paint_color(blank, Color::Cyan);
    let bright_look = Look { foreground: Some(Color::Cyan), bold: true, ..plain() };
    lemma_paint_styled(blank, screen, bright, bright_look, title);
    lemma_paint_both(canvas, top, styled(screen, bright, title));
    let titled = paint(blank, styled(screen, bright, title));
    lemma_paint_dim_row(titled, screen, 1, rule);
    let upper = top + styled(screen, bright, title);
    let ruling = at_row(1) + styled(screen, seq![Draw::Dim], rule);
    lemma_paint_both(canvas, upper, ruling);
    assert(title_part(config, screen) == upper + ruling);
    assert(rule == title_sights(config, screen)[1].text);
    assert(paint(canvas, title_part(config, screen)).sights == title_sights(config, screen));
}

proof fn lemma_paint_search(canvas: Canvas, scene: Scene, screen: Screen)
    requires
        canvas.look == plain(),
    ensures
        only_adds(
            canvas,
            paint(canvas, search_part(scene, screen)),
            seq![search_sight(scene, screen)],
        ),
{
    lemma_paint_dim_row(canvas, screen, 2, search_sight(scene, screen).text);
}

proof fn lemma_paint_nothing(canvas: Canvas, scene: Scene, screen: Screen)
    requires
        canvas.look == plain(),
    ensures
        only_adds(
            canvas,
            paint(canvas, empty_part(scene, screen)),
            nothing_sights(scene, screen),
        ),
{
    lemma_paint_dim_row(canvas, screen, 4, "No matching commands"@);
    assert(canvas.sights + Seq::<Sight>::empty() == canvas.sights);
}

proof fn lemma_paint_description(canvas: Canvas, config: MenuConfig, scene: Scene, screen: Screen)
    requires
        canvas.look == plain(),
    ensures
        only_adds(
            canvas,
            paint(canvas, description_part(config, scene, screen)),
            description_sights(config, scene, screen),
        ),
{
    let row = screen.height() - 3;
    if scene.selected < scene.ordered.len() {
        lemma_paint_dim_row(
            canvas,
            screen,
            row,
            description_sights(config, scene, screen)[0].text,
        );
    } else {
        lemma_paint_one(canvas, Draw::MoveTo { column: 0, row: row as u16 });
        assert(description_part(config, scene, screen) == at_row(row));
        assert(canvas.sights + Seq::<Sight>::empty() == canvas.sights);
    }
}

proof fn lemma_paint_help(canvas: Canvas, scene: Scene, screen: Screen)
    requires
        canvas.look == plain(),
    ensures
        only_adds(canvas, paint(canvas, help_part(scene, screen)), seq![help_sight(scene, screen)]),
{
    lemma_paint_dim_row(canvas, screen, screen.height() - 2, help_sight(scene, screen).text);
}

proof fn lemma_paint_status(canvas: Canvas, scene: Scene, screen: Screen)
    requires
        canvas.look == plain(),
    ensures
        only_adds(
            canvas,
            paint(canvas, status_part(scene, screen)),
            seq![
                status_sight(
                    scene,
                    screen,
                    first_visible(scene, screen),
                    visible_count(scene, screen),
                ),
            ],
        ),
{
    let row = screen.height() - 1;
    let sight = status_sight(
        scene,
        screen,
        first_visible(scene, screen),
        visible_count(scene, screen),
    );
    assert(status_text(scene, screen) == count_line(
        scene,
        first_visible(scene, screen),
        visible_count(scene, screen),
    ));
    if scene.message matches Some((_, failed)) && failed {
        lemma_paint_color(Canvas { row, ..canvas }, Color::Red);
        lemma_paint_row(
            canvas,
            screen,
            row,
            seq![Draw::Foreground(Color::Red)],
            Look { foreground: Some(Color::Red), ..plain() },
            sight.text,
        );
        assert(canvas.sights.push(sight) == canvas.sights + seq![sight]);
    } else {
        lemma_paint_dim_row(canvas, screen, row, sight.text);
    }
}

proof fn lemma_what_is_seen(
    canvas: Canvas,
    config: MenuConfig,
    scene: Scene,
    screen: Screen,
)
    requires
        canvas.look == plain(),
        0 <= scene.selected,
    ensures
        ({
            let listed = scene.ordered.len() as int;
            let visible = vstd::math::min(listed, rows_used(screen) - 8);
            let first = window_start(listed, visible, scene.selected);
            let after = paint(canvas, picture(config, scene, screen));
            let rows = Seq::new(
                visible as nat,
                |place: int| row_sight(config, scene, screen, first + place, place + 4),
            );
            &&& after.sights == title_sights(config, screen) + (seq![search_sight(scene, screen)] + (
            rows + (nothing_sights(scene, screen) + (description_sights(config, scene, screen) + (
            seq![help_sight(scene, screen)] + seq![status_sight(scene, screen, first, visible)])))))
            &&& after.look == plain()
            &&& after.cursor_hidden
        }),
{
    let count = visible_count(scene, screen);
    let first = first_visible(scene, screen);
    let rows = Seq::new(
        count as nat,
        |place: int| row_sight(config, scene, screen, first + place, place + 4),
    );
    let title = title_part(config, screen);
    let search = search_part(scene, screen);
    let items = rows_part(config, scene, screen, count);
    let nothing = empty_part(scene, screen);
    let description = description_part(config, scene, screen);
    let help = help_part(scene, screen);
    let status = status_part(scene, screen);

    let one = paint(canvas, title);
    lemma_paint_title(canvas, config, screen);
    let two = paint(one, search);
    lemma_paint_search(one, scene, screen);
    lemma_paint_both(canvas, title, search);
    let three = paint(two, items);
    lemma_paint_rows(two, config, scene, screen, count);
    lemma_paint_both(canvas, title + search, items);
    assert(only_adds(two, three, rows));
    let four = paint(three, nothing);
    lemma_paint_nothing(three, scene, screen);
    lemma_paint_both(canvas, title + search + items, nothing);
    let five = paint(four, description);
    lemma_paint_description(four, config, scene, screen);
    lemma_paint_both(canvas, title + search + items + nothing, description);
    let six = paint(five, help);
    lemma_paint_help(five, scene, screen);
    lemma_paint_both(canvas, title + search + items + nothing + description, help);
    let seven = paint(six, status);
    lemma_paint_status(six, scene, screen);
    lemma_paint_both(canvas, title + search + items + nothing + description + help, status);

    let last = seq![status_sight(scene, screen, first, count)];
    let seen_help = seq![help_sight(scene, screen)];
    let seen_description = description_sights(config, scene, screen);
    let seen_nothing = nothing_sights(scene, screen);
    let seen_search = seq![search_sight(scene, screen)];
    lemma_only_adds(five, six, seven, seen_help, last);
    lemma_only_adds(four, five, seven, seen_description, seen_help + last);
    lemma_only_adds(three, four, seven, seen_nothing, seen_description + (seen_help + last));
    lemma_only_adds(
        two,
        three,
        seven,
        rows,
        seen_nothing + (seen_description + (seen_help + last)),
    );
    lemma_only_adds(
        one,
        two,
        seven,
        seen_search,
        rows + (seen_nothing + (seen_description + (seen_help + last))),
    );
    assert(count == vstd::math::min(scene.ordered.len() as int, rows_used(screen) - 8));
    assert(first == window_start(scene.ordered.len() as int, count, scene.selected));
}

/// What is to be seen when the menu was drawn, from the top to the bottom: the title
/// and a rule below it, the search line, the visible stretch of the listing with one
/// item in each row and the selected one in its colors, the description of the selected
/// item, the help, and the status or what is reported. Everything else is gone, the
/// cursor is hidden, and no style is left on.
pub proof fn what_the_menu_looks_like(
    canvas: Canvas,
    config: MenuConfig,
    scene: Scene,
    screen: Screen,
)
    requires
        canvas.look == plain(),
        0 <= scene.selected,
    ensures
        ({
            let width = vstd::math::max(screen.columns as int, 20) as nat;
            let height = vstd::math::max(screen.rows as int, 10);
            let listed = scene.ordered.len() as int;
            let visible = vstd::math::min(listed, height - 8);
            let first = vstd::math::min(
                vstd::math::max(scene.selected - visible / 2, 0),
                listed - visible,
            );
            let after = paint(canvas, picture(config, scene, screen));
            let dim = Look { foreground: None, background: None, bold: false, dim: screen.colors };
            let item = config.items@[scene.ordered[scene.selected] as int];
            let behind = 3 + visible + (if listed == 0 {
                1int
            } else {
                0
            }) + (if scene.selected < listed {
                1int
            } else {
                0
            });
            &&& after.look == plain()
            &&& after.cursor_hidden
            &&& after.sights.len() == behind + 2
            &&& after.sights[0] == (Sight {
                row: 0,
                look: Look {
                    foreground: if screen.colors {
                        Some(Color::Cyan)
                    } else {
                        None
                    },
                    background: None,
                    bold: screen.colors,
                    dim: false,
                },
                text: text::truncated(config.title@, width),
            })
            &&& after.sights[1].row == 1
            &&& after.sights[1].look == dim
            &&& after.sights[1].text.len() == vstd::math::min(
                vstd::math::max(config.title@.len() as int, 12),
                width as int,
            )
            &&& forall|i: int|
                0 <= i < after.sights[1].text.len() ==> #[trigger] after.sights[1].text[i] == '─'
            &&& after.sights[2] == (Sight {
                row: 2,
                look: dim,
                text: if scene.search_mode {
                    text::truncated("Search: "@ + scene.query + "_"@, width)
                } else {
                    "Press / to search"@
                },
            })
            &&& listed == 0 ==> after.sights[3] == (Sight {
                row: 4,
                look: dim,
                text: "No matching commands"@,
            })
            &&& scene.selected < listed ==> after.sights[behind - 1] == (Sight {
                row: height - 3,
                look: dim,
                text: text::truncated(
                    match item.description {
                        Some(description) => description@,
                        None => "Command: "@ + item.command.display(),
                    },
                    width,
                ),
            })
            &&& after.sights[behind] == (Sight {
                row: height - 2,
                look: dim,
                text: text::truncated(
                    if scene.search_mode {
                        "Type to filter • ↑/↓ select • PgUp/PgDn • Enter run • Esc clear/close"@
                    } else {
                        "↑/↓ or j/k • PgUp/PgDn • Home/End • / search • Enter run • q/Esc quit"@
                    },
                    width,
                ),
            })
            &&& after.sights[behind + 1].row == height - 1
            &&& scene.message matches Some((report, failed)) ==> after.sights[behind + 1].text
                == text::truncated(report, width) && after.sights[behind + 1].look == (if failed {
                Look {
                    foreground: if screen.colors {
                        Some(Color::Red)
                    } else {
                        None
                    },
                    background: None,
                    bold: false,
                    dim: false,
                }
            } else {
                dim
            })
            &&& scene.message is None ==> after.sights[behind + 1].look == dim
                && after.sights[behind + 1].text == text::truncated(
                if listed == 0 && scene.search_mode {
                    "0 "@ + "matches"@
                } else if listed == 0 {
                    "0 "@ + "commands"@
                } else {
                    text::decimal(listed as nat) + " "@ + (if scene.search_mode {
                        "matches"@
                    } else {
                        "commands"@
                    }) + " • items "@ + text::decimal((first + 1) as nat) + "–"@ + text::decimal(
                        (first + visible) as nat,
                    ) + "/"@ + text::decimal(listed as nat)
                },
                width,
            )
        }),
{
    lemma_what_is_seen(canvas, config, scene, screen);
    let listed = scene.ordered.len() as int;
    let visible = vstd::math::min(listed, rows_used(screen) - 8);
    let first = window_start(listed, visible, scene.selected);
    let all = paint(canvas, picture(config, scene, screen)).sights;
    let rows = Seq::new(
        visible as nat,
        |place: int| row_sight(config, scene, screen, first + place, place + 4),
    );
    let head = title_sights(config, screen) + seq![search_sight(scene, screen)];
    let nothing = nothing_sights(scene, screen);
    let description = description_sights(config, scene, screen);
    let foot = seq![help_sight(scene, screen)] + seq![status_sight(scene, screen, first, visible)];
    assert(all == head + rows + nothing + description + foot);
    assert(all[0] == head[0] && all[1] == head[1] && all[2] == head[2]);
    let behind = 3 + visible + nothing.len() + description.len();
    assert(all[behind] == foot[0] && all[behind + 1] == foot[1]);
    if listed == 0 {
        assert(all[3] == nothing[0]);
    }
    if scene.selected < listed {
        assert(all[behind - 1] == description[0]);
    }
}

/// The visible rows are one stretch of the listing, in its order and each item once:
/// in the row number `visible` below the head, and nowhere else, stands the line of the
/// listed item that is as many places behind the first visible one. The selected one is
/// in its colors.
pub proof fn visible_rows_are_a_stretch_of_the_listing(
    canvas: Canvas,
    config: MenuConfig,
    scene: Scene,
    screen: Screen,
    visible: int,
)
    requires
        canvas.look == plain(),
        0 <= scene.selected,
        0 <= visible < vstd::math::min(
            scene.ordered.len() as int,
            vstd::math::max(screen.rows as int, 10) - 8,
        ),
    ensures
        ({
            let listed = scene.ordered.len() as int;
            let count = vstd::math::min(listed, vstd::math::max(screen.rows as int, 10) - 8);
            let first = vstd::math::min(
                vstd::math::max(scene.selected - count / 2, 0),
                listed - count,
            );
            let position = first + visible;
            let sights = paint(canvas, picture(config, scene, screen)).sights;
            &&& 0 <= position < listed
            &&& sights[visible + 3].row == visible + 4
            &&& sights[visible + 3].text == item_line(
                config,
                scene.recents,
                config.items@[scene.ordered[position] as int],
                position == scene.selected,
                vstd::math::max(screen.columns as int, 20) as nat,
            )
            &&& sights[visible + 3].look == (if screen.colors && position == scene.selected {
                Look {
                    foreground: Some(config.selected_foreground),
                    background: Some(config.selected_background),
                    bold: config.selected_bold,
                    dim: false,
                }
            } else {
                plain()
            })
            &&& forall|i: int|
                0 <= i < sights.len() && i != visible + 3 ==> (#[trigger] sights[i]).row != visible
                    + 4
        }),
{
    lemma_what_is_seen(canvas, config, scene, screen);
    let listed = scene.ordered.len() as int;
    let count = vstd::math::min(listed, rows_used(screen) - 8);
    let first = window_start(listed, count, scene.selected);
    let rows = Seq::new(
        count as nat,
        |place: int| row_sight(config, scene, screen, first + place, place + 4),
    );
    let all = paint(canvas, picture(config, scene, screen)).sights;
    let head = title_sights(config, screen);
    let tail = description_sights(config, scene, screen) + (seq![help_sight(scene, screen)] + seq![
        status_sight(scene, screen, first, count),
    ]);
    assert(nothing_sights(scene, screen) == Seq::<Sight>::empty());
    assert(all == head + (seq![search_sight(scene, screen)] + (rows + tail)));
    assert(all[visible + 3] == rows[visible]);
    assert forall|i: int| 0 <= i < all.len() && i != visible + 3 implies (#[trigger] all[i]).row
        != visible + 4 by {
        if 3 <= i < 3 + count {
            assert(all[i] == rows[i - 3]);
        } else if i >= 3 + count {
            assert(all[i] == tail[i - 3 - count]);
        }
    }
}

/// The row of an item starts with its mark and its badge: `›` where it is selected, and
/// `★` for a favorite or else `↻` for a recently used item. The column of bindings, the
/// label and the group come behind them.
pub proof fn a_row_says_what_the_item_is(
    config: MenuConfig,
    recents: Seq<Seq<char>>,
    item: MenuItem,
    selected: bool,
)
    ensures
        full_line(config, recents, item, selected) == seq![
            if selected {
                '›'
            } else {
                ' '
            },
            ' ',
            if item.favorite {
                '★'
            } else if recents.contains(item.stable_id@) {
                '↻'
            } else {
                ' '
            },
            ' ',
        ] + binding_column(config, item) + item.label@ + (match item.group {
            Some(group) => "  · "@ + group@,
            None => Seq::empty(),
        }),
{
    reveal_strlit("›");
    reveal_strlit(" ");
    reveal_strlit("★");
    reveal_strlit("↻");
    let marks = seq![
        if selected {
            '›'
        } else {
            ' '
        },
        ' ',
        if item.favorite {
            '★'
        } else if recents.contains(item.stable_id@) {
            '↻'
        } else {
            ' '
        },
        ' ',
    ];
    assert((if selected {
        "›"@
    } else {
        " "@
    }) + " "@ + badge(item, recents) + " "@ == marks);
}

/// A row is cut to the width, and the selected one is filled up with spaces.
pub proof fn a_row_is_cut_to_the_width(
    config: MenuConfig,
    recents: Seq<Seq<char>>,
    item: MenuItem,
    width: nat,
)
    ensures
        item_line(config, recents, item, false, width) == text::truncated(
            full_line(config, recents, item, false),
            width,
        ),
        ({
            let line = item_line(config, recents, item, true, width);
            let cut = text::truncated(full_line(config, recents, item, true), width);
            &&& line.len() == width
            &&& cut.len() <= width
            &&& forall|i: int|
                0 <= i < width ==> #[trigger] line[i] == (if i < cut.len() {
                    cut[i]
                } else {
                    ' '
                })
        }),
{
}

/// The column of bindings is as wide as the widest binding and a space, and is left out
/// where no item has one. It starts with the binding of the item, if any, and spaces
/// fill the rest.
pub proof fn the_column_of_bindings(config: MenuConfig, index: int)
    requires
        0 <= index < config.items@.len(),
    ensures
        ({
            let item = config.items@[index];
            let column = binding_column(config, item);
            let shown = match item.key {
                Some(key) => binding::substituted(config.key_format@, key@),
                None => Seq::empty(),
            };
            &&& shown.len() > 0 ==> column.len() > shown.len()
            &&& column.len() > 0 ==> {
                &&& shown.len() < column.len()
                &&& forall|i: int|
                    0 <= i < column.len() ==> #[trigger] column[i] == (if i < shown.len() {
                        shown[i]
                    } else {
                        ' '
                    })
                &&& exists|other: int|
                    0 <= other < config.items@.len() && (#[trigger] config.items@[other]).key
                        is Some && column.len() == binding::substituted(
                        config.key_format@,
                        config.items@[other].key->0@,
                    ).len() + 1
            }
        }),
{
    reveal_strlit(" ");
    let count = config.items@.len() as int;
    lemma_widest_binding(config, index, count);
    if binding_width(config) > 0 {
        let other = lemma_widest_is_one(config, count);
        assert(config.items@[other].key is Some);
    }
}

proof fn lemma_widest_is_one(config: MenuConfig, count: int) -> (index: int)
    requires
        0 <= count <= config.items@.len(),
        widest_binding(config, count) > 0,
    ensures
        0 <= index < count,
        shown_binding(config, config.items@[index]).len() == widest_binding(config, count),
    decreases count,
{
    let width = shown_binding(config, config.items@[count - 1]).len();
    if widest_binding(config, count - 1) < width {
        count - 1
    } else {
        lemma_widest_is_one(config, count - 1)
    }
}

/// A question stands in the last row, row 23 where the size is not known, and nothing
/// else does: the row is cleared before.
pub proof fn a_question_stands_in_the_last_row(size: Option<(u16, u16)>, question: Seq<char>)
    ensures
        prompt(size, question) == seq![
            Draw::MoveTo {
                column: 0,
                row: match size {
                    Some((_, rows)) => if rows > 0 {
                        (rows - 1) as u16
                    } else {
                        0
                    },
                    None => 23,
                },
            },
            Draw::ClearLine,
            Draw::Text(question),
        ],
{
}

/// The question before an item runs names its label and offers no as the default.
pub proof fn the_question_names_the_item(item: MenuItem)
    ensures
        confirm_question(item) == "Run '"@ + item.label@ + "'? [y/N] "@,
{
}

/// A page is what a screen of this size has room for: its rows less 8, and 2 at least;
/// a screen whose size is not known counts as one of 80 columns and 24 rows.
pub proof fn a_page_is_the_screen_less_eight_rows(size: Option<(u16, u16)>, colors: bool)
    ensures
        size matches Some((_, rows)) ==> page_items(size) == vstd::math::max(rows as int, 10) - 8,
        size is None ==> page_items(size) == 16,
        page_items(size) == vstd::math::max(Screen::of_size(size, colors).rows as int, 10) - 8,
        Screen::of_size(size, colors).colors == colors,
        size matches Some((columns, rows)) ==> Screen::of_size(size, colors).columns == columns
            && Screen::of_size(size, colors).rows == rows,
        size is None ==> Screen::of_size(size, colors).columns == 80 && Screen::of_size(
            size,
            colors,
        ).rows == 24,
{
}

/// The contents of a step are what it is, with the contents of its text; several steps
/// are taken one by one.
pub proof fn contents_of_steps_are_what_they_are(steps: Seq<Draw<String>>, i: int)
    requires
        0 <= i < steps.len(),
    ensures
        drawn(steps).len() == steps.len(),
        match steps[i] {
            Draw::ClearScreen => drawn(steps)[i] is ClearScreen,
            Draw::ClearLine => drawn(steps)[i] is ClearLine,
            Draw::MoveTo { column, row } => drawn(steps)[i] == (Draw::<Seq<char>>::MoveTo {
                column,
                row,
            }),
            Draw::HideCursor => drawn(steps)[i] is HideCursor,
            Draw::Foreground(color) => drawn(steps)[i] == Draw::<Seq<char>>::Foreground(color),
            Draw::Background(color) => drawn(steps)[i] == Draw::<Seq<char>>::Background(color),
            Draw::Bold => drawn(steps)[i] is Bold,
            Draw::Dim => drawn(steps)[i] is Dim,
            Draw::ResetColor => drawn(steps)[i] is ResetColor,
            Draw::ResetAttributes => drawn(steps)[i] is ResetAttributes,
            Draw::Text(value) => drawn(steps)[i] == Draw::Text(value@),
        },
{
}

/// The scene of a drawing is what is handed in.
pub proof fn a_scene_is_what_is_handed_in(
    ordered: Seq<usize>,
    selected: usize,
    search_mode: bool,
    query: Seq<char>,
    recents: RecentStore,
    message: Option<(&str, bool)>,
)
    ensures
        ({
            let scene = scene_of(ordered, selected, search_mode, query, recents, message);
            &&& scene.ordered == ordered
            &&& scene.selected == selected
            &&& scene.search_mode == search_mode
            &&& scene.query == query
            &&& scene.recents.len() == recents.ids@.len()
            &&& forall|i: int|
                0 <= i < recents.ids@.len() ==> #[trigger] scene.recents[i] == recents.ids@[i]@
            &&& message is None <==> scene.message is None
            &&& message matches Some((report, failed)) ==> scene.message == Some((report@, failed))
        }),
{
}

} // verus!
