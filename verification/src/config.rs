//! From a configuration file to a menu.
use crate::binding;
use crate::binding::{normalize_key, one_character, valid_key_format};
use crate::color;
use crate::color::parse_color;
use crate::command::{command_display, CommandSpec};
use crate::error;
use crate::error::config_error;
use crate::identity;
use crate::identity::{stable_hash, valid_explicit_id};
use crate::menu;
use crate::menu::{
    FileConfig, FileItem, MenuConfig, MenuItem, MenuSection, MAX_CONFIG_BYTES, MAX_MENU_ITEMS,
};
use crate::text;
use crate::text::{contains_text, is_blank, joined, push_decimal};
use vstd::prelude::*;

verus! {

// ---------------------------------------------------------------------------
// What a file says, with the defaults filled in
// ---------------------------------------------------------------------------
/// A text, or what stands for it where it is not set.
pub open spec fn text_or(value: Option<String>, default: Seq<char>) -> Seq<char> {
    match value {
        Some(set) => set@,
        None => default,
    }
}

pub open spec fn flag_or(value: Option<bool>, default: bool) -> bool {
    match value {
        Some(set) => set,
        None => default,
    }
}

pub open spec fn title_of(section: MenuSection) -> Seq<char> {
    text_or(section.title, "Menu"@)
}

pub open spec fn quit_key_of(section: MenuSection) -> Seq<char> {
    text_or(section.quit_key, "q"@)
}

pub open spec fn key_format_of(section: MenuSection) -> Seq<char> {
    text_or(section.key_format, "[{key}]"@)
}

pub open spec fn foreground_of(section: MenuSection) -> Option<color::Color> {
    color::color_of(text_or(section.selected_foreground, "black"@))
}

pub open spec fn background_of(section: MenuSection) -> Option<color::Color> {
    color::color_of(text_or(section.selected_background, "cyan"@))
}

/// The identity of an item: made of its id where it has one, else derived from
/// its label and its command.
pub open spec fn identity_of(item: FileItem) -> Seq<char> {
    match item.id {
        Some(id) => identity::explicit_id(id@),
        None => identity::derived_id(item.label@ + seq!['\u{1f}'] + item.command.display()),
    }
}

// ---------------------------------------------------------------------------
// What is wrong with a file
// ---------------------------------------------------------------------------
/// The first thing wrong with the `[menu]` table or the number of items.
pub open spec fn section_problem(file: FileConfig) -> Option<Seq<char>> {
    if foreground_of(file.menu) is None {
        Some(color::color_message("selected_foreground"@))
    } else if background_of(file.menu) is None {
        Some(color::color_message("selected_background"@))
    } else if text::blank(title_of(file.menu)) {
        Some("menu.title must be a non-empty string"@)
    } else if quit_key_of(file.menu).len() != 1 {
        Some("menu.quit_key must be one character"@)
    } else if !binding::acceptable_key_format(key_format_of(file.menu)) {
        Some(
            "menu.key_format must contain {key} exactly once, use no control characters, and be at most 32 characters"@,
        )
    } else if file.items@.len() == 0 {
        Some("at least one [[items]] table is required"@)
    } else if file.items@.len() > MAX_MENU_ITEMS {
        Some(
            "menu contains "@ + text::decimal(file.items@.len()) + " items; maximum is "@
                + text::decimal(MAX_MENU_ITEMS as nat),
        )
    } else {
        None
    }
}

/// The menu itself or an item before the one at `index` already uses `key`.
pub open spec fn key_taken(file: FileConfig, index: int, key: Seq<char>) -> bool {
    ||| key == text::lowered(quit_key_of(file.menu))
    ||| menu::navigation_key(key)
    ||| exists|j: int|
        0 <= j < index && menu::normalized_binding((#[trigger] file.items@[j]).key) == Some(key)
}

/// An item before the one at `index` already has this identity.
pub open spec fn identity_taken(file: FileConfig, index: int, id: Seq<char>) -> bool {
    exists|j: int| 0 <= j < index && identity_of(#[trigger] file.items@[j]) == id
}

/// How the item at `index` is named in messages.
pub open spec fn item_name(index: int) -> Seq<char> {
    "items["@ + text::decimal((index + 1) as nat) + "]"@
}

/// The first thing wrong with the item at `index`, given the items before it.
pub open spec fn item_problem(file: FileConfig, index: int) -> Option<Seq<char>> {
    let item = file.items@[index];
    if text::blank(item.label@) {
        Some(item_name(index) + ".label must be a non-empty string"@)
    } else if !menu::acceptable_command(item.command) {
        match item.command {
            CommandSpec::Shell(_) => Some(item_name(index) + ".command must be non-empty"@),
            CommandSpec::Direct(_) => Some(
                item_name(index) + ".command must be a non-empty array of non-empty strings"@,
            ),
        }
    } else if item.key matches Some(key) && key@.len() != 1 {
        Some(item_name(index) + ".key must be one character"@)
    } else if item.key matches Some(key) && key_taken(file, index, text::lowered(key@)) {
        Some("duplicate or reserved key binding: '"@ + item.key->0@ + "'"@)
    } else if !menu::absent_or_not_blank(item.description) {
        Some(item_name(index) + ".description must be non-empty when set"@)
    } else if !menu::absent_or_not_blank(item.group) {
        Some(item_name(index) + ".group must be non-empty when set"@)
    } else if exists|i: int| 0 <= i < item.tags@.len() && text::blank((#[trigger] item.tags@[i])@) {
        Some(item_name(index) + ".tags must contain only non-empty strings"@)
    } else if item.id matches Some(id) && !identity::acceptable_id(id@) {
        Some(item_name(index) + ".id may contain only letters, numbers, '.', '_', and '-'"@)
    } else if identity_taken(file, index, identity_of(item)) {
        Some(item_name(index) + " has a duplicate item identity; add unique id fields"@)
    } else {
        None
    }
}

/// What is wrong with the first item from `index` on that anything is wrong with.
pub open spec fn items_problem(file: FileConfig, index: int) -> Option<Seq<char>>
    decreases file.items@.len() - index,
{
    if index < 0 || index >= file.items@.len() {
        None
    } else {
        match item_problem(file, index) {
            Some(problem) => Some(problem),
            None => items_problem(file, index + 1),
        }
    }
}

/// The first thing wrong with a configuration file.
pub open spec fn problem(file: FileConfig) -> Option<Seq<char>> {
    match section_problem(file) {
        Some(found) => Some(found),
        None => items_problem(file, 0),
    }
}

// ---------------------------------------------------------------------------
// What becomes of a file
// ---------------------------------------------------------------------------
/// `item` is what the menu holds for `source`.
pub open spec fn item_from(source: FileItem, item: MenuItem) -> bool {
    &&& item.stable_id@ == identity_of(source)
    &&& item.label == source.label
    &&& item.command == source.command
    &&& item.key == source.key
    &&& item.confirm == source.confirm
    &&& item.description == source.description
    &&& item.group == source.group
    &&& item.tags == source.tags
    &&& item.favorite == source.favorite
}

/// `config` is the menu that `file` describes.
pub open spec fn menu_from(file: FileConfig, config: MenuConfig) -> bool {
    &&& config.title@ == title_of(file.menu)
    &&& config.quit_key@ == quit_key_of(file.menu)
    &&& config.loop_menu == flag_or(file.menu.loop_menu, true)
    &&& config.key_format@ == key_format_of(file.menu)
    &&& foreground_of(file.menu) == Some(config.selected_foreground)
    &&& background_of(file.menu) == Some(config.selected_background)
    &&& config.selected_bold == flag_or(file.menu.selected_bold, true)
    &&& config.items@.len() == file.items@.len()
    &&& forall|i: int|
        0 <= i < file.items@.len() ==> item_from(#[trigger] file.items@[i], config.items@[i])
}

// ---------------------------------------------------------------------------
// Checking
// ---------------------------------------------------------------------------
fn or_default(value: Option<String>, default: &str) -> (result: String)
    ensures
        result@ == text_or(value, default@),
{
    match value {
        Some(set) => set,
        None => default.to_owned(),
    }
}

fn any_blank(values: &Vec<String>) -> (found: bool)
    ensures
        found == exists|i: int|
            0 <= i < values@.len() && text::blank((#[trigger] values@[i])@),
{
    let mut next: usize = 0;
    while next < values.len()
        invariant
            next <= values@.len(),
            forall|i: int| 0 <= i < next ==> !text::blank((#[trigger] values@[i])@),
        decreases values@.len() - next,
    {
        if is_blank(values[next].as_str()) {
            assert(text::blank(values@[next as int]@));
            return true;
        }
        next = next + 1;
    }
    false
}

fn command_is_acceptable(command: &CommandSpec) -> (acceptable: bool)
    ensures
        acceptable == menu::acceptable_command(*command),
{
    match command {
        CommandSpec::Shell(script) => !is_blank(script.as_str()),
        CommandSpec::Direct(parts) => {
            let mut next: usize = 0;
            while next < parts.len()
                invariant
                    *command == CommandSpec::Direct(*parts),
                    next <= parts@.len(),
                    forall|i: int| 0 <= i < next ==> (#[trigger] parts@[i])@.len() > 0,
                decreases parts@.len() - next,
            {
                if parts[next].as_str().is_empty() {
                    assert(parts@[next as int]@.len() == 0);
                    return false;
                }
                next = next + 1;
            }
            parts.len() > 0
        },
    }
}

fn set_but_blank(value: &Option<String>) -> (answer: bool)
    ensures
        answer == !menu::absent_or_not_blank(*value),
{
    match value {
        Some(set) => is_blank(set.as_str()),
        None => false,
    }
}

fn describe_item(index: usize, complaint: &str) -> (message: String)
    requires
        index < MAX_MENU_ITEMS,
    ensures
        message@ == error::reported(item_name(index as int) + complaint@),
{
    let mut message = "items[".to_owned();
    push_decimal(&mut message, (index + 1) as u64);
    message.append("]");
    message.append(complaint);
    config_error(message.as_str())
}

/// The identity of `item`.
fn make_identity(item: &FileItem) -> (id: String)
    ensures
        id@ == identity_of(*item),
{
    match &item.id {
        Some(id) => joined("id:", id.as_str()),
        None => {
            let mut source = item.label.clone();
            source.push('\u{1f}');
            let shown = command_display(&item.command);
            source.append(shown.as_str());
            assert(source@ == item.label@ + seq!['\u{1f}'] + item.command.display());
            stable_hash(source.as_str())
        },
    }
}

/// The keys that the menu and the items before `index` use.
spec fn keys_used(keys: Seq<String>, file: FileConfig, index: int) -> bool {
    forall|key: Seq<char>|
        #[trigger] text::texts(keys).contains(key) <==> key_taken(file, index, key)
}

/// The identities of the items before `index`.
spec fn identities_used(ids: Seq<String>, file: FileConfig, index: int) -> bool {
    forall|id: Seq<char>|
        #[trigger] text::texts(ids).contains(id) <==> identity_taken(file, index, id)
}

/// Checks one item. Returns its identity where nothing is wrong with it.
fn check_item(
    item: &FileItem,
    index: usize,
    used_keys: &Vec<String>,
    used_ids: &Vec<String>,
    Ghost(file): Ghost<FileConfig>,
) -> (checked: Result<String, String>)
    requires
        index < file.items@.len() <= MAX_MENU_ITEMS,
        file.items@[index as int] == *item,
        keys_used(used_keys@, file, index as int),
        identities_used(used_ids@, file, index as int),
    ensures
        match checked {
            Ok(id) => item_problem(file, index as int) is None && id@ == identity_of(*item),
            Err(message) => item_problem(file, index as int) matches Some(found) && message@
                == error::reported(found),
        },
{
    if is_blank(item.label.as_str()) {
        return Err(describe_item(index, ".label must be a non-empty string"));
    }
    if !command_is_acceptable(&item.command) {
        return Err(
            match &item.command {
                CommandSpec::Shell(_) => describe_item(index, ".command must be non-empty"),
                CommandSpec::Direct(_) => describe_item(
                    index,
                    ".command must be a non-empty array of non-empty strings",
                ),
            },
        );
    }
    if let Some(key) = &item.key {
        if !one_character(key.as_str()) {
            return Err(describe_item(index, ".key must be one character"));
        }
        if contains_text(used_keys, &normalize_key(key.as_str())) {
            let mut message = "duplicate or reserved key binding: '".to_owned();
            message.append(key.as_str());
            message.append("'");
            return Err(config_error(message.as_str()));
        }
    }
    if set_but_blank(&item.description) {
        return Err(describe_item(index, ".description must be non-empty when set"));
    }
    if set_but_blank(&item.group) {
        return Err(describe_item(index, ".group must be non-empty when set"));
    }
    if any_blank(&item.tags) {
        return Err(describe_item(index, ".tags must contain only non-empty strings"));
    }
    if let Some(id) = &item.id {
        if !valid_explicit_id(id.as_str()) {
            return Err(
                describe_item(
                    index,
                    ".id may contain only letters, numbers, '.', '_', and '-'",
                ),
            );
        }
    }
    let stable_id = make_identity(item);
    if contains_text(used_ids, &stable_id) {
        return Err(
            describe_item(index, " has a duplicate item identity; add unique id fields"),
        );
    }
    Ok(stable_id)
}

proof fn lemma_push_key(keys: Seq<String>, added: String, file: FileConfig, index: int)
    requires
        0 <= index < file.items@.len(),
        keys_used(keys, file, index),
        menu::normalized_binding(file.items@[index].key) == Some(added@),
    ensures
        keys_used(keys.push(added), file, index + 1),
{
    let longer = text::texts(keys.push(added));
    assert(longer == text::texts(keys).push(added@));
    assert forall|key: Seq<char>| #[trigger]
        longer.contains(key) <==> key_taken(file, index + 1, key) by {
        if longer.contains(key) {
            let at = choose|at: int| 0 <= at < longer.len() && longer[at] == key;
            if at < keys.len() {
                assert(text::texts(keys)[at] == key);
                assert(text::texts(keys).contains(key));
            } else {
                assert(menu::normalized_binding(file.items@[index].key) == Some(key));
            }
        }
        if key_taken(file, index + 1, key) {
            if key_taken(file, index, key) {
                assert(text::texts(keys).contains(key));
                let at = choose|at: int| 0 <= at < keys.len() && text::texts(keys)[at] == key;
                assert(longer[at] == key);
            } else {
                assert(key == added@);
                assert(longer[keys.len() as int] == key);
            }
        }
    }
}

proof fn lemma_no_key(keys: Seq<String>, file: FileConfig, index: int)
    requires
        0 <= index < file.items@.len(),
        keys_used(keys, file, index),
        file.items@[index].key is None,
    ensures
        keys_used(keys, file, index + 1),
{
    assert forall|key: Seq<char>| #[trigger]
        text::texts(keys).contains(key) <==> key_taken(file, index + 1, key) by {
        assert(key_taken(file, index + 1, key) == key_taken(file, index, key));
    }
}

proof fn lemma_push_identity(ids: Seq<String>, added: String, file: FileConfig, index: int)
    requires
        0 <= index < file.items@.len(),
        identities_used(ids, file, index),
        identity_of(file.items@[index]) == added@,
    ensures
        identities_used(ids.push(added), file, index + 1),
{
    let longer = text::texts(ids.push(added));
    assert(longer == text::texts(ids).push(added@));
    assert forall|id: Seq<char>| #[trigger]
        longer.contains(id) <==> identity_taken(file, index + 1, id) by {
        if longer.contains(id) {
            let at = choose|at: int| 0 <= at < longer.len() && longer[at] == id;
            if at < ids.len() {
                assert(text::texts(ids)[at] == id);
                assert(text::texts(ids).contains(id));
            } else {
                assert(identity_of(file.items@[index]) == id);
            }
        }
        if identity_taken(file, index + 1, id) {
            if identity_taken(file, index, id) {
                assert(text::texts(ids).contains(id));
                let at = choose|at: int| 0 <= at < ids.len() && text::texts(ids)[at] == id;
                assert(longer[at] == id);
            } else {
                assert(id == added@);
                assert(longer[ids.len() as int] == id);
            }
        }
    }
}

proof fn lemma_items_problem_from(file: FileConfig, from: int, index: int)
    requires
        0 <= from <= index <= file.items@.len(),
        forall|i: int| from <= i < index ==> #[trigger] item_problem(file, i) is None,
    ensures
        items_problem(file, from) == items_problem(file, index),
    decreases index - from,
{
    if from < index {
        assert(item_problem(file, from) is None);
        lemma_items_problem_from(file, from + 1, index);
    }
}

/// The menu of a file with nothing wrong is well formed.
proof fn lemma_menu_well_formed(file: FileConfig, config: MenuConfig)
    requires
        section_problem(file) is None,
        forall|i: int| 0 <= i < file.items@.len() ==> #[trigger] item_problem(file, i) is None,
        menu_from(file, config),
    ensures
        config.well_formed(),
{
    assert forall|i: int| 0 <= i < config.items@.len() implies (
    #[trigger] config.items@[i]).well_formed() by {
        let source = file.items@[i];
        assert(item_problem(file, i) is None);
        assert(item_from(source, config.items@[i]));
        let named = match source.id {
            Some(id) => id@,
            None => Seq::empty(),
        };
        identity::identities_are_solid(
            named,
            source.label@ + seq!['\u{1f}'] + source.command.display(),
        );
    }
    assert forall|i: int, j: int| 0 <= i < j < config.items@.len() implies (
    #[trigger] config.items@[i]).stable_id@ != (#[trigger] config.items@[j]).stable_id@ by {
        assert(item_problem(file, j) is None);
        assert(item_from(file.items@[i], config.items@[i]));
        assert(item_from(file.items@[j], config.items@[j]));
    }
    assert forall|i: int| 0 <= i < config.items@.len() implies (menu::normalized_binding(
        (#[trigger] config.items@[i]).key,
    ) matches Some(key) ==> !menu::navigation_key(key) && key != text::lowered(
        config.quit_key@,
    )) by {
        assert(item_problem(file, i) is None);
        assert(item_from(file.items@[i], config.items@[i]));
    }
    assert forall|i: int, j: int|
        0 <= i < j < config.items@.len() && menu::normalized_binding(
            (#[trigger] config.items@[i]).key,
        ) is Some implies menu::normalized_binding(config.items@[i].key)
        != menu::normalized_binding((#[trigger] config.items@[j]).key) by {
        assert(item_problem(file, j) is None);
        assert(item_from(file.items@[i], config.items@[i]));
        assert(item_from(file.items@[j], config.items@[j]));
    }
}

/// Makes the menu that a configuration file describes. `parsed` is what reading
/// the file as TOML gave: its contents, or the reader's complaint.
pub fn parse_config_text(parsed: Result<FileConfig, String>) -> (result: Result<
    MenuConfig,
    String,
>)
    ensures
        match result {
            Ok(config) => parsed matches Ok(file) && problem(file) is None && menu_from(
                file,
                config,
            ) && config.well_formed(),
            Err(message) => match parsed {
                Ok(file) => problem(file) matches Some(found) && message@ == error::reported(found),
                Err(complaint) => message@ == error::reported("invalid TOML: "@ + complaint@),
            },
        },
{
    let file = match parsed {
        Ok(file) => file,
        Err(complaint) => {
            return Err(config_error(joined("invalid TOML: ", complaint.as_str()).as_str()));
        },
    };
    let ghost source = file;
    let title = or_default(file.menu.title, "Menu");
    let quit_key = or_default(file.menu.quit_key, "q");
    let loop_menu = file.menu.loop_menu.unwrap_or(true);
    let key_format = or_default(file.menu.key_format, "[{key}]");
    let foreground = or_default(file.menu.selected_foreground, "black");
    let background = or_default(file.menu.selected_background, "cyan");
    let selected_bold = file.menu.selected_bold.unwrap_or(true);
    let selected_foreground = match parse_color(foreground.as_str(), "selected_foreground") {
        Ok(color) => color,
        Err(message) => return Err(message),
    };
    let selected_background = match parse_color(background.as_str(), "selected_background") {
        Ok(color) => color,
        Err(message) => return Err(message),
    };
    if is_blank(title.as_str()) {
        return Err(config_error("menu.title must be a non-empty string"));
    }
    if !one_character(quit_key.as_str()) {
        return Err(config_error("menu.quit_key must be one character"));
    }
    if !valid_key_format(key_format.as_str()) {
        return Err(
            config_error(
                "menu.key_format must contain {key} exactly once, use no control characters, and be at most 32 characters",
            ),
        );
    }
    if file.items.len() == 0 {
        return Err(config_error("at least one [[items]] table is required"));
    }
    if file.items.len() > MAX_MENU_ITEMS {
        let mut message = "menu contains ".to_owned();
        push_decimal(&mut message, file.items.len() as u64);
        message.append(" items; maximum is ");
        push_decimal(&mut message, MAX_MENU_ITEMS as u64);
        return Err(config_error(message.as_str()));
    }
    assert(section_problem(source) is None);
    let mut used_keys: Vec<String> = Vec::new();
    used_keys.push(normalize_key(quit_key.as_str()));
    used_keys.push("j".to_owned());
    used_keys.push("k".to_owned());
    used_keys.push("/".to_owned());
    let mut used_ids: Vec<String> = Vec::new();
    proof {
        let keys = text::texts(used_keys@);
        assert(keys == seq![text::lowered(quit_key@), "j"@, "k"@, "/"@]);
        assert forall|key: Seq<char>| #[trigger]
            keys.contains(key) <==> key_taken(source, 0, key) by {
            if key_taken(source, 0, key) {
                assert(keys[0] == key || keys[1] == key || keys[2] == key || keys[3] == key);
            }
        }
        assert(text::texts(used_ids@).len() == 0);
    }
    let mut items: Vec<MenuItem> = Vec::new();
    for item in iter: file.items
        invariant
            parsed == Ok::<FileConfig, String>(source),
            iter.seq() == source.items@,
            items@.len() == iter.index(),
            source.items@.len() <= MAX_MENU_ITEMS,
            section_problem(source) is None,
            keys_used(used_keys@, source, iter.index()),
            identities_used(used_ids@, source, iter.index()),
            forall|i: int| 0 <= i < iter.index() ==> #[trigger] item_problem(source, i) is None,
            forall|i: int|
                0 <= i < iter.index() ==> item_from(#[trigger] source.items@[i], items@[i]),
    {
        let index: usize = items.len();
        proof {
            lemma_items_problem_from(source, 0, index as int);
        }
        let stable_id = match check_item(&item, index, &used_keys, &used_ids, Ghost(source)) {
            Ok(stable_id) => stable_id,
            Err(message) => return Err(message),
        };
        match &item.key {
            Some(key) => {
                let normalized = normalize_key(key.as_str());
                proof {
                    lemma_push_key(used_keys@, normalized, source, index as int);
                }
                used_keys.push(normalized);
            },
            None => {
                proof {
                    lemma_no_key(used_keys@, source, index as int);
                }
            },
        }
        proof {
            lemma_push_identity(used_ids@, stable_id, source, index as int);
        }
        used_ids.push(stable_id.clone());
        items.push(
            MenuItem {
                stable_id,
                label: item.label,
                command: item.command,
                key: item.key,
                confirm: item.confirm,
                description: item.description,
                group: item.group,
                tags: item.tags,
                favorite: item.favorite,
            },
        );
    }
    let config = MenuConfig {
        title,
        quit_key,
        loop_menu,
        key_format,
        selected_foreground,
        selected_background,
        selected_bold,
        items,
    };
    proof {
        lemma_items_problem_from(source, 0, source.items@.len() as int);
        lemma_menu_well_formed(source, config);
    }
    Ok(config)
}

/// Decides whether the text of a configuration file is read any further. `path`
/// is how the file is shown, `read` what reading it gave: its text, or the
/// system's complaint.
pub fn load_config(path: &str, read: Result<String, String>) -> (text: Result<String, String>)
    ensures
        match read {
            Err(complaint) => text matches Err(message) && message@ == error::reported(
                "cannot read "@ + path@ + ": "@ + complaint@,
            ),
            Ok(contents) => if vstd::utf8::encode_utf8(contents@).len() > MAX_CONFIG_BYTES {
                text matches Err(message) && message@ == error::reported(
                    "configuration exceeds the "@ + text::decimal(MAX_CONFIG_BYTES as nat)
                        + " byte limit"@,
                )
            } else {
                text == Ok::<String, String>(contents)
            },
        },
        text is Ok <==> read is Ok && vstd::utf8::encode_utf8(read->Ok_0@).len() <= 1_048_576,
{
    let contents = match read {
        Ok(contents) => contents,
        Err(complaint) => {
            let mut message = "cannot read ".to_owned();
            message.append(path);
            message.append(": ");
            message.append(complaint.as_str());
            return Err(config_error(message.as_str()));
        },
    };
    if contents.as_str().as_bytes().len() > MAX_CONFIG_BYTES {
        let mut message = "configuration exceeds the ".to_owned();
        push_decimal(&mut message, MAX_CONFIG_BYTES as u64);
        message.append(" byte limit");
        return Err(config_error(message.as_str()));
    }
    Ok(contents)
}

// ---------------------------------------------------------------------------
// Laws
// ---------------------------------------------------------------------------
/// An item with an explicit id keeps its identity whatever else of it changes.
pub proof fn an_explicit_id_outlives_changes(before: FileItem, after: FileItem)
    requires
        before.id is Some,
        text::optional_text(before.id) == text::optional_text(after.id),
    ensures
        identity_of(before) == identity_of(after),
{
}

/// The identity of an item without an id depends on its label and its command
/// alone.
pub proof fn label_and_command_make_the_identity(one: FileItem, other: FileItem)
    requires
        one.id is None,
        other.id is None,
        one.label@ == other.label@,
        one.command.display() == other.command.display(),
    ensures
        identity_of(one) == identity_of(other),
{
}

proof fn lemma_no_item_problem(file: FileConfig, from: int, index: int)
    requires
        0 <= from <= index < file.items@.len(),
        items_problem(file, from) is None,
    ensures
        item_problem(file, index) is None,
    decreases index - from,
{
    if from < index {
        lemma_no_item_problem(file, from + 1, index);
    }
}

/// No menu is made of a file in which an item is bound to the quit key, to `j`,
/// `k` or `/`, or to the key of an item before it, in upper or lower case.
pub proof fn a_taken_key_is_refused(file: FileConfig, index: int)
    requires
        0 <= index < file.items@.len(),
        file.items@[index].key is Some,
        key_taken(file, index, text::lowered(file.items@[index].key->0@)),
    ensures
        problem(file) is Some,
{
    if problem(file) is None {
        lemma_no_item_problem(file, 0, index);
    }
}

/// No menu is made of a file in which two items have the same identity.
pub proof fn a_shared_identity_is_refused(file: FileConfig, former: int, latter: int)
    requires
        0 <= former < latter < file.items@.len(),
        identity_of(file.items@[former]) == identity_of(file.items@[latter]),
    ensures
        problem(file) is Some,
{
    if problem(file) is None {
        lemma_no_item_problem(file, 0, latter);
        assert(identity_taken(file, latter, identity_of(file.items@[latter])));
    }
}

// ---------------------------------------------------------------------------
// Which files are accepted
// ---------------------------------------------------------------------------
/// There is something but white space in the text.
spec fn says_something(value: Seq<char>) -> bool {
    exists|i: int| 0 <= i < value.len() && !text::white_space(#[trigger] value[i])
}

/// The text is left out, or there is something in it.
spec fn left_out_or_says_something(value: Option<String>) -> bool {
    value matches Some(set) ==> says_something(set@)
}

/// A script that says something, or a program and arguments none of which is empty.
spec fn command_in_order(command: CommandSpec) -> bool {
    match command {
        CommandSpec::Shell(script) => says_something(script@),
        CommandSpec::Direct(parts) => parts@.len() > 0 && forall|i: int|
            0 <= i < parts@.len() ==> (#[trigger] parts@[i])@.len() > 0,
    }
}

/// All tags say something.
spec fn tags_in_order(tags: Seq<String>) -> bool {
    forall|i: int| 0 <= i < tags.len() ==> says_something((#[trigger] tags[i])@)
}

/// The id is left out or can be accepted.
spec fn id_in_order(id: Option<String>) -> bool {
    id matches Some(set) ==> identity::acceptable_id(set@)
}

/// The key of an item is left out or one character.
spec fn key_in_order(key: Option<String>) -> bool {
    key matches Some(set) ==> set@.len() == 1
}

/// An item is in order on its own.
spec fn item_in_order(item: FileItem) -> bool {
    &&& says_something(item.label@)
    &&& command_in_order(item.command)
    &&& key_in_order(item.key)
    &&& left_out_or_says_something(item.description)
    &&& left_out_or_says_something(item.group)
    &&& tags_in_order(item.tags@)
    &&& id_in_order(item.id)
}

/// The key that quits, `q` where none is set.
spec fn quitting_key(section: MenuSection) -> Seq<char> {
    match section.quit_key {
        Some(key) => key@,
        None => "q"@,
    }
}

/// The item at `index` is bound to a key that the menu needs, or to the key of an item
/// before it, letter case aside.
spec fn key_clashes(file: FileConfig, index: int) -> bool {
    match file.items@[index].key {
        Some(key) => {
            let low = text::lowered(key@);
            ||| low == text::lowered(quitting_key(file.menu))
            ||| low == "j"@
            ||| low == "k"@
            ||| low == "/"@
            ||| exists|j: int|
                0 <= j < index && (#[trigger] file.items@[j]).key is Some && text::lowered(
                    file.items@[j].key->0@,
                ) == low
        },
        None => false,
    }
}

/// An item before the one at `index` has the same identity.
spec fn identity_clashes(file: FileConfig, index: int) -> bool {
    exists|j: int|
        0 <= j < index && identity_of(#[trigger] file.items@[j]) == identity_of(file.items@[index])
}

/// The text is left out, or stands for a color.
spec fn left_out_or_color(value: Option<String>) -> bool {
    value matches Some(set) ==> color::color_of(set@) is Some
}

/// The `[menu]` table is in order.
spec fn section_in_order(section: MenuSection) -> bool {
    &&& left_out_or_color(section.selected_foreground)
    &&& left_out_or_color(section.selected_background)
    &&& left_out_or_says_something(section.title)
    &&& key_in_order(section.quit_key)
    &&& section.key_format matches Some(format) ==> binding::acceptable_key_format(format@)
}

proof fn lemma_blank_says_nothing(value: Seq<char>)
    ensures
        text::blank(value) <==> !says_something(value),
{
    if !says_something(value) {
        assert forall|i: int| 0 <= i < value.len() implies text::white_space(
            #[trigger] value[i],
        ) by {}
    }
}

proof fn lemma_defaults_are_in_order()
    ensures
        color::color_of("black"@) == Some(color::Color::Black),
        color::color_of("cyan"@) == Some(color::Color::Cyan),
        !text::blank("Menu"@),
        "q"@.len() == 1,
        binding::acceptable_key_format("[{key}]"@),
{
    reveal_strlit("black");
    reveal_strlit("cyan");
    reveal_strlit("Menu");
    reveal_strlit("q");
    reveal_strlit("[{key}]");
    reveal_strlit("{key}");
    text::trimming_keeps_tight_text("black"@);
    text::trimming_keeps_tight_text("cyan"@);
    color::colors_go_by_their_names("black"@);
    color::colors_go_by_their_names("cyan"@);
    assert(color::spells("black"@, "black"@));
    assert(color::spells("cyan"@, "cyan"@));
    assert(!text::white_space("Menu"@[0]));
    let format = "[{key}]"@;
    binding::accepted_key_formats(format);
    assert(format.subrange(1, 6) == "{key}"@);
    assert(binding::key_stands_at(format, 1));
    assert forall|other: int| #[trigger] binding::key_stands_at(format, other) implies other == 1 by {
        assert(format.subrange(other, other + 5)[0] == format[other]);
        assert("{key}"@[0] == '{');
    }
}

proof fn lemma_section_problem(file: FileConfig)
    ensures
        (foreground_of(file.menu) is Some) == left_out_or_color(file.menu.selected_foreground),
        (background_of(file.menu) is Some) == left_out_or_color(file.menu.selected_background),
        text::blank(title_of(file.menu)) == !left_out_or_says_something(file.menu.title),
        (quit_key_of(file.menu).len() == 1) == key_in_order(file.menu.quit_key),
        quit_key_of(file.menu) == quitting_key(file.menu),
        binding::acceptable_key_format(key_format_of(file.menu)) == (file.menu.key_format matches Some(
            format,
        ) ==> binding::acceptable_key_format(format@)),
{
    lemma_defaults_are_in_order();
    if let Some(title) = file.menu.title {
        lemma_blank_says_nothing(title@);
    }
}

proof fn lemma_item_conditions(file: FileConfig, index: int)
    requires
        0 <= index < file.items@.len(),
    ensures
        ({
            let item = file.items@[index];
            &&& text::blank(item.label@) == !says_something(item.label@)
            &&& menu::acceptable_command(item.command) == command_in_order(item.command)
            &&& menu::absent_or_not_blank(item.description) == left_out_or_says_something(
                item.description,
            )
            &&& menu::absent_or_not_blank(item.group) == left_out_or_says_something(item.group)
            &&& (exists|i: int|
                0 <= i < item.tags@.len() && text::blank((#[trigger] item.tags@[i])@))
                == !tags_in_order(item.tags@)
            &&& (item.key matches Some(key) && key_taken(file, index, text::lowered(key@)))
                == key_clashes(file, index)
            &&& identity_taken(file, index, identity_of(item)) == identity_clashes(file, index)
        }),
{
    let item = file.items@[index];
    lemma_blank_says_nothing(item.label@);
    if let CommandSpec::Shell(script) = item.command {
        lemma_blank_says_nothing(script@);
    }
    if let Some(description) = item.description {
        lemma_blank_says_nothing(description@);
    }
    if let Some(group) = item.group {
        lemma_blank_says_nothing(group@);
    }
    assert forall|i: int| 0 <= i < item.tags@.len() implies text::blank(
        (#[trigger] item.tags@[i])@,
    ) == !says_something(item.tags@[i]@) by {
        lemma_blank_says_nothing(item.tags@[i]@);
    }
    lemma_section_problem(file);
    if let Some(key) = item.key {
        let low = text::lowered(key@);
        if exists|j: int|
            0 <= j < index && menu::normalized_binding((#[trigger] file.items@[j]).key) == Some(low) {
            let j = choose|j: int|
                0 <= j < index && menu::normalized_binding((#[trigger] file.items@[j]).key) == Some(
                    low,
                );
            assert(file.items@[j].key is Some);
        }
        if exists|j: int|
            0 <= j < index && (#[trigger] file.items@[j]).key is Some && text::lowered(
                file.items@[j].key->0@,
            ) == low {
            let j = choose|j: int|
                0 <= j < index && (#[trigger] file.items@[j]).key is Some && text::lowered(
                    file.items@[j].key->0@,
                ) == low;
            assert(menu::normalized_binding(file.items@[j].key) == Some(low));
        }
    }
}

proof fn lemma_all_fine(file: FileConfig, from: int)
    requires
        0 <= from,
        forall|i: int| from <= i < file.items@.len() ==> #[trigger] item_problem(file, i) is None,
    ensures
        items_problem(file, from) is None,
    decreases file.items@.len() - from,
{
    if from < file.items@.len() {
        assert(item_problem(file, from) is None);
        lemma_all_fine(file, from + 1);
    }
}

proof fn lemma_accepted_in_order(file: FileConfig)
    ensures
        problem(file) is None <==> {
            &&& section_in_order(file.menu)
            &&& 1 <= file.items@.len() <= 1_000
            &&& forall|i: int|
                0 <= i < file.items@.len() ==> item_in_order(#[trigger] file.items@[i])
                    && !key_clashes(file, i) && !identity_clashes(file, i)
        },
{
    lemma_section_problem(file);
    if problem(file) is None {
        assert forall|i: int| 0 <= i < file.items@.len() implies item_in_order(
            #[trigger] file.items@[i],
        ) && !key_clashes(file, i) && !identity_clashes(file, i) by {
            lemma_no_item_problem(file, 0, i);
            lemma_item_conditions(file, i);
        }
    }
    if section_in_order(file.menu) && 1 <= file.items@.len() <= 1_000 && forall|i: int|
        0 <= i < file.items@.len() ==> item_in_order(#[trigger] file.items@[i]) && !key_clashes(
            file,
            i,
        ) && !identity_clashes(file, i) {
        assert forall|i: int| 0 <= i < file.items@.len() implies #[trigger] item_problem(file, i)
            is None by {
            lemma_item_conditions(file, i);
            assert(item_in_order(file.items@[i]));
        }
        lemma_all_fine(file, 0);
    }
}

/// A file is accepted where all of this holds. The colors that are set are colors, the
/// title says something, the quit key is one character and the key format can be used.
/// There are from 1 to 1000 items. Each has a label that says something and a command;
/// what is set of its key, description, group, tags and id is in order. No two items
/// have the same identity or, letter case aside, the same key, and none has a key that
/// the menu needs.
pub proof fn a_file_in_order_is_accepted(file: FileConfig)
    requires
        file.menu.selected_foreground matches Some(set) ==> color::color_of(set@) is Some,
        file.menu.selected_background matches Some(set) ==> color::color_of(set@) is Some,
        file.menu.title matches Some(set) ==> !text::blank(set@),
        file.menu.quit_key matches Some(set) ==> set@.len() == 1,
        file.menu.key_format matches Some(set) ==> binding::acceptable_key_format(set@),
        1 <= file.items@.len() <= 1_000,
        forall|n: int|
            0 <= n < file.items@.len() ==> !text::blank((#[trigger] file.items@[n]).label@),
        forall|n: int|
            0 <= n < file.items@.len() ==> match (#[trigger] file.items@[n]).command {
                CommandSpec::Shell(script) => !text::blank(script@),
                CommandSpec::Direct(parts) => parts@.len() > 0 && forall|i: int|
                    0 <= i < parts@.len() ==> (#[trigger] parts@[i])@.len() > 0,
            },
        forall|n: int|
            0 <= n < file.items@.len() ==> ((#[trigger] file.items@[n]).key matches Some(set)
                ==> set@.len() == 1),
        forall|n: int|
            0 <= n < file.items@.len() ==> ((#[trigger] file.items@[n]).description matches Some(set)
                ==> !text::blank(set@)),
        forall|n: int|
            0 <= n < file.items@.len() ==> ((#[trigger] file.items@[n]).group matches Some(set)
                ==> !text::blank(set@)),
        forall|n: int, t: int|
            0 <= n < file.items@.len() && 0 <= t < file.items@[n].tags@.len() ==> !text::blank(
                (#[trigger] file.items@[n].tags@[t])@,
            ),
        forall|n: int|
            0 <= n < file.items@.len() ==> ((#[trigger] file.items@[n]).id matches Some(set)
                ==> identity::acceptable_id(set@)),
        forall|n: int|
            0 <= n < file.items@.len() ==> ((#[trigger] file.items@[n]).key matches Some(set)
                ==> text::lowered(set@) != "j"@ && text::lowered(set@) != "k"@ && text::lowered(
                set@,
            ) != "/"@ && text::lowered(set@) != text::lowered(
                match file.menu.quit_key {
                    Some(key) => key@,
                    None => "q"@,
                },
            )),
        forall|m: int, n: int|
            0 <= m < n < file.items@.len() && (#[trigger] file.items@[m]).key is Some && (
            #[trigger] file.items@[n]).key is Some ==> text::lowered(file.items@[m].key->0@)
                != text::lowered(file.items@[n].key->0@),
        forall|m: int, n: int|
            0 <= m < n < file.items@.len() ==> identity_of(#[trigger] file.items@[m])
                != identity_of(#[trigger] file.items@[n]),
    ensures
        problem(file) is None,
{
    if file.menu.title is Some {
        lemma_blank_says_nothing(file.menu.title->0@);
    }
    assert forall|n: int| 0 <= n < file.items@.len() implies item_in_order(
        #[trigger] file.items@[n],
    ) && !key_clashes(file, n) && !identity_clashes(file, n) by {
        let item = file.items@[n];
        lemma_blank_says_nothing(item.label@);
        if item.command is Shell {
            lemma_blank_says_nothing(item.command->Shell_0@);
        }
        if item.description is Some {
            lemma_blank_says_nothing(item.description->0@);
        }
        if item.group is Some {
            lemma_blank_says_nothing(item.group->0@);
        }
        lemma_tags(item.tags@);
        assert(command_in_order(item.command));
        assert forall|t: int| 0 <= t < item.tags@.len() implies !text::blank(
            (#[trigger] item.tags@[t])@,
        ) by {
            assert(!text::blank(file.items@[n].tags@[t]@));
        }
    }
    lemma_accepted_in_order(file);
}

/// A file is refused for each of these: a color that is none, a title with nothing in
/// it, a quit key that is not one character, a key format that cannot be used, no items
/// or more than 1000; and for an item without a label or a command, with a key that is
/// not one character, or with a description, a group, a tag or an id that is set but not
/// in order.
pub proof fn a_file_with_a_fault_is_refused(file: FileConfig, n: int, t: int)
    requires
        0 <= n < file.items@.len() || file.items@.len() == 0,
    ensures
        (file.menu.selected_foreground matches Some(set) && color::color_of(set@) is None
           ) ==> problem(file) is Some,
        (file.menu.selected_background matches Some(set) && color::color_of(set@) is None
           ) ==> problem(file) is Some,
        (file.menu.title matches Some(set) && text::blank(set@)) ==> problem(file) is Some,
        (file.menu.quit_key matches Some(set) && set@.len() != 1) ==> problem(file) is Some,
        (file.menu.key_format matches Some(set) && !binding::acceptable_key_format(set@)) ==> problem(
            file,
        ) is Some,
        file.items@.len() == 0 ==> problem(file) is Some,
        file.items@.len() > 1_000 ==> problem(file) is Some,
        file.items@.len() > 0 ==> ({
            let item = file.items@[n];
            &&& text::blank(item.label@) ==> problem(file) is Some
            &&& (item.command matches CommandSpec::Shell(script) && text::blank(script@)) ==> problem(file)
                is Some
            &&& (item.command matches CommandSpec::Direct(parts) && parts@.len() == 0) ==> problem(
                file,
            ) is Some
            &&& (item.command matches CommandSpec::Direct(parts) && 0 <= t < parts@.len()
                && parts@[t]@.len() == 0) ==> problem(file) is Some
            &&& (item.key matches Some(set) && set@.len() != 1) ==> problem(file) is Some
            &&& (item.description matches Some(set) && text::blank(set@)) ==> problem(file) is Some
            &&& (item.group matches Some(set) && text::blank(set@)) ==> problem(file) is Some
            &&& 0 <= t < item.tags@.len() && text::blank(item.tags@[t]@) ==> problem(file) is Some
            &&& (item.id matches Some(set) && !identity::acceptable_id(set@)) ==> problem(file)
                is Some
        }),
{
    lemma_accepted_in_order(file);
    if problem(file) is None {
        let item = file.items@[n];
        assert(item_in_order(item));
        if file.menu.title is Some {
            lemma_blank_says_nothing(file.menu.title->0@);
        }
        lemma_blank_says_nothing(item.label@);
        if item.command is Shell {
            lemma_blank_says_nothing(item.command->Shell_0@);
        }
        if item.description is Some {
            lemma_blank_says_nothing(item.description->0@);
        }
        if item.group is Some {
            lemma_blank_says_nothing(item.group->0@);
        }
        lemma_tags(item.tags@);
    }
}

/// The first thing wrong with the `[menu]` table, or with the number of items, is what
/// is reported, and these are looked at in this order.
pub proof fn what_is_wrong_with_the_menu_table(file: FileConfig)
    ensures
        ({
            let foreground = file.menu.selected_foreground matches Some(set) ==> color::color_of(
                set@,
            ) is Some;
            let background = file.menu.selected_background matches Some(set) ==> color::color_of(
                set@,
            ) is Some;
            let title = file.menu.title matches Some(set) ==> !text::blank(set@);
            let quit = file.menu.quit_key matches Some(set) ==> set@.len() == 1;
            let format = file.menu.key_format matches Some(set) ==> binding::acceptable_key_format(
                set@,
            );
            let colors = foreground && background;
            let table = colors && title && quit && format;
            let count = file.items@.len();
            &&& !foreground ==> problem(file) == Some(
                "menu."@ + "selected_foreground"@ + " must be a named color or #RRGGBB"@,
            )
            &&& foreground && !background ==> problem(file) == Some(
                "menu."@ + "selected_background"@ + " must be a named color or #RRGGBB"@,
            )
            &&& colors && !title ==> problem(file) == Some("menu.title must be a non-empty string"@)
            &&& colors && title && !quit ==> problem(file) == Some(
                "menu.quit_key must be one character"@,
            )
            &&& colors && title && quit && !format ==> problem(file) == Some(
                "menu.key_format must contain {key} exactly once, use no control characters, and be at most 32 characters"@,
            )
            &&& table && count == 0 ==> problem(file) == Some(
                "at least one [[items]] table is required"@,
            )
            &&& table && count > 1_000 ==> problem(file) == Some(
                "menu contains "@ + text::decimal(count) + " items; maximum is "@ + text::decimal(
                    1_000,
                ),
            )
        }),
{
    lemma_section_problem(file);
    if file.menu.title is Some {
        lemma_blank_says_nothing(file.menu.title->0@);
    }
}

/// A file that agrees with an accepted one up to an item is refused for the first thing
/// that is wrong with this item, in this order. The item is named by its number,
/// counted from 1, or by its key.
pub proof fn what_is_wrong_with_an_item(file: FileConfig, accepted: FileConfig, index: int)
    requires
        problem(accepted) is None,
        accepted.menu == file.menu,
        0 <= index < file.items@.len() <= 1_000,
        index <= accepted.items@.len(),
        forall|j: int| 0 <= j < index ==> #[trigger] file.items@[j] == accepted.items@[j],
    ensures
        ({
            let item = file.items@[index];
            let quit_key = match file.menu.quit_key {
                Some(key) => key@,
                None => "q"@,
            };
            let name = "items["@ + text::decimal((index + 1) as nat) + "]"@;
            let label = !text::blank(item.label@);
            let command = label && match item.command {
                CommandSpec::Shell(script) => !text::blank(script@),
                CommandSpec::Direct(parts) => parts@.len() > 0 && forall|i: int|
                    0 <= i < parts@.len() ==> (#[trigger] parts@[i])@.len() > 0,
            };
            let key = command && (item.key matches Some(set) ==> set@.len() == 1);
            let free = key && (item.key matches Some(set) ==> {
                &&& text::lowered(set@) != text::lowered(quit_key)
                &&& text::lowered(set@) != "j"@
                &&& text::lowered(set@) != "k"@
                &&& text::lowered(set@) != "/"@
                &&& forall|j: int|
                    0 <= j < index && (#[trigger] file.items@[j]).key is Some ==> text::lowered(
                        file.items@[j].key->0@,
                    ) != text::lowered(set@)
            });
            let description = free && (item.description matches Some(set) ==> !text::blank(set@));
            let group = description && (item.group matches Some(set) ==> !text::blank(set@));
            let tags = group && forall|t: int|
                0 <= t < item.tags@.len() ==> !text::blank((#[trigger] item.tags@[t])@);
            let id = tags && (item.id matches Some(set) ==> identity::acceptable_id(set@));
            let unlike = forall|j: int|
                0 <= j < index ==> identity_of(#[trigger] file.items@[j]) != identity_of(item);
            &&& !label ==> problem(file) == Some(name + ".label must be a non-empty string"@)
            &&& label && !command && item.command is Shell ==> problem(file) == Some(
                name + ".command must be non-empty"@,
            )
            &&& label && !command && item.command is Direct ==> problem(file) == Some(
                name + ".command must be a non-empty array of non-empty strings"@,
            )
            &&& command && !key ==> problem(file) == Some(name + ".key must be one character"@)
            &&& key && !free ==> problem(file) == Some(
                "duplicate or reserved key binding: '"@ + item.key->0@ + "'"@,
            )
            &&& free && !description ==> problem(file) == Some(
                name + ".description must be non-empty when set"@,
            )
            &&& description && !group ==> problem(file) == Some(
                name + ".group must be non-empty when set"@,
            )
            &&& group && !tags ==> problem(file) == Some(
                name + ".tags must contain only non-empty strings"@,
            )
            &&& tags && !id ==> problem(file) == Some(
                name + ".id may contain only letters, numbers, '.', '_', and '-'"@,
            )
            &&& id && !unlike ==> problem(file) == Some(
                name + " has a duplicate item identity; add unique id fields"@,
            )
        }),
{
    let item = file.items@[index];
    lemma_section_problem(file);
    lemma_accepted_in_order(accepted);
    assert forall|i: int| 0 <= i < index implies #[trigger] item_problem(file, i) is None by {
        lemma_same_item_problem(file, accepted, index, i);
        lemma_no_item_problem(accepted, 0, i);
    }
    lemma_items_problem_from(file, 0, index);
    lemma_item_conditions(file, index);
    lemma_tags(item.tags@);
    if item.description is Some {
        lemma_blank_says_nothing(item.description->0@);
    }
    if item.group is Some {
        lemma_blank_says_nothing(item.group->0@);
    }
    lemma_blank_says_nothing(item.label@);
    if item.command is Shell {
        lemma_blank_says_nothing(item.command->Shell_0@);
    }
}

proof fn lemma_tags(tags: Seq<String>)
    ensures
        tags_in_order(tags) == forall|t: int|
            0 <= t < tags.len() ==> !text::blank((#[trigger] tags[t])@),
{
    assert forall|t: int| 0 <= t < tags.len() implies says_something((#[trigger] tags[t])@)
        == !text::blank(tags[t]@) by {
        lemma_blank_says_nothing(tags[t]@);
    }
}

proof fn lemma_same_item_problem(file: FileConfig, accepted: FileConfig, index: int, i: int)
    requires
        accepted.menu == file.menu,
        0 <= i < index <= file.items@.len(),
        index <= accepted.items@.len(),
        forall|j: int| 0 <= j < index ==> #[trigger] file.items@[j] == accepted.items@[j],
    ensures
        item_problem(file, i) == item_problem(accepted, i),
{
    let item = file.items@[i];
    assert(item == accepted.items@[i]);
    if item.key is Some {
        lemma_same_key_taken(file, accepted, i, text::lowered(item.key->0@));
    }
    lemma_same_identity_taken(file, accepted, i, identity_of(item));
}

proof fn lemma_same_key_taken(file: FileConfig, accepted: FileConfig, i: int, key: Seq<char>)
    requires
        accepted.menu == file.menu,
        forall|j: int| 0 <= j < i ==> #[trigger] file.items@[j] == accepted.items@[j],
    ensures
        key_taken(file, i, key) == key_taken(accepted, i, key),
{
    if exists|j: int|
        0 <= j < i && menu::normalized_binding((#[trigger] accepted.items@[j]).key) == Some(key) {
        let j = choose|j: int|
            0 <= j < i && menu::normalized_binding((#[trigger] accepted.items@[j]).key) == Some(key);
        assert(file.items@[j] == accepted.items@[j]);
        assert(menu::normalized_binding(file.items@[j].key) == Some(key));
    }
}

proof fn lemma_same_identity_taken(file: FileConfig, accepted: FileConfig, i: int, id: Seq<char>)
    requires
        forall|j: int| 0 <= j < i ==> #[trigger] file.items@[j] == accepted.items@[j],
    ensures
        identity_taken(file, i, id) == identity_taken(accepted, i, id),
{
    if identity_taken(accepted, i, id) {
        let j = choose|j: int| 0 <= j < i && identity_of(#[trigger] accepted.items@[j]) == id;
        assert(file.items@[j] == accepted.items@[j]);
        assert(identity_of(file.items@[j]) == id);
    }
}

/// The menu of a file says what the file says: the defaults stand for what is left out,
/// and the items are taken over one by one, as they are and in their order.
pub proof fn a_menu_says_what_its_file_says(file: FileConfig, config: MenuConfig)
    requires
        menu_from(file, config),
    ensures
        config.title@ == (match file.menu.title {
            Some(title) => title@,
            None => "Menu"@,
        }),
        config.quit_key@ == (match file.menu.quit_key {
            Some(key) => key@,
            None => "q"@,
        }),
        config.key_format@ == (match file.menu.key_format {
            Some(format) => format@,
            None => "[{key}]"@,
        }),
        config.loop_menu == (file.menu.loop_menu != Some(false)),
        config.selected_bold == (file.menu.selected_bold != Some(false)),
        Some(config.selected_foreground) == (match file.menu.selected_foreground {
            Some(name) => color::color_of(name@),
            None => Some(color::Color::Black),
        }),
        Some(config.selected_background) == (match file.menu.selected_background {
            Some(name) => color::color_of(name@),
            None => Some(color::Color::Cyan),
        }),
        config.items@.len() == file.items@.len(),
        forall|i: int|
            #![trigger config.items@[i]]
            0 <= i < file.items@.len() ==> {
                let source = file.items@[i];
                let item = config.items@[i];
                &&& item.label@ == source.label@
                &&& item.command == source.command
                &&& item.key == source.key
                &&& item.confirm == source.confirm
                &&& item.description == source.description
                &&& item.group == source.group
                &&& item.tags@ == source.tags@
                &&& item.favorite == source.favorite
                &&& item.stable_id@ == (match source.id {
                    Some(id) => identity::explicit_id(id@),
                    None => identity::derived_id(
                        source.label@ + seq!['\u{1f}'] + source.command.display(),
                    ),
                })
            },
{
    lemma_defaults_are_in_order();
    assert forall|i: int| 0 <= i < file.items@.len() implies item_from(
        file.items@[i],
        #[trigger] config.items@[i],
    ) by {
        assert(item_from(file.items@[i], config.items@[i]));
    }
}

} // verus!
