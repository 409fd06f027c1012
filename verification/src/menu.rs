//! The menu: as a configuration file describes it, and as it is used.
use crate::binding;
use crate::color::Color;
use crate::command::CommandSpec;
use crate::identity;
use crate::text;
use vstd::prelude::*;

verus! {

/// At most this many bytes of configuration are read.
pub const MAX_CONFIG_BYTES: usize = 1_048_576;

/// At most this many items are in a menu.
pub const MAX_MENU_ITEMS: usize = 1_000;

/// A configuration file, before it is checked.
#[derive(Debug)]
pub struct FileConfig {
    pub menu: MenuSection,
    pub items: Vec<FileItem>,
}

/// The `[menu]` table of a configuration file.
#[derive(Debug)]
pub struct MenuSection {
    pub title: Option<String>,
    pub quit_key: Option<String>,
    pub loop_menu: Option<bool>,
    pub key_format: Option<String>,
    pub selected_foreground: Option<String>,
    pub selected_background: Option<String>,
    pub selected_bold: Option<bool>,
}

/// One `[[items]]` table of a configuration file.
#[derive(Debug)]
pub struct FileItem {
    pub id: Option<String>,
    pub label: String,
    pub command: CommandSpec,
    pub key: Option<String>,
    pub confirm: bool,
    pub description: Option<String>,
    pub group: Option<String>,
    pub tags: Vec<String>,
    pub favorite: bool,
}

/// A menu that can be shown.
#[derive(Debug)]
pub struct MenuConfig {
    pub title: String,
    pub quit_key: String,
    pub loop_menu: bool,
    pub key_format: String,
    pub selected_foreground: Color,
    pub selected_background: Color,
    pub selected_bold: bool,
    pub items: Vec<MenuItem>,
}

/// One command of a menu.
#[derive(Debug)]
pub struct MenuItem {
    pub stable_id: String,
    pub label: String,
    pub command: CommandSpec,
    pub key: Option<String>,
    pub confirm: bool,
    pub description: Option<String>,
    pub group: Option<String>,
    pub tags: Vec<String>,
    pub favorite: bool,
}

/// The binding that an item is found by, if it has one.
pub open spec fn normalized_binding(key: Option<String>) -> Option<Seq<char>> {
    match key {
        Some(bound) => Some(text::lowered(bound@)),
        None => None,
    }
}

/// A key that no item can have, whatever the quit key is.
pub open spec fn navigation_key(key: Seq<char>) -> bool {
    key == "j"@ || key == "k"@ || key == "/"@
}

/// A command that something can be started for.
pub open spec fn acceptable_command(command: CommandSpec) -> bool {
    match command {
        CommandSpec::Shell(script) => !text::blank(script@),
        CommandSpec::Direct(parts) => parts@.len() > 0 && forall|i: int|
            0 <= i < parts@.len() ==> (#[trigger] parts@[i])@.len() > 0,
    }
}

/// An optional text that says something where it is set.
pub open spec fn absent_or_not_blank(value: Option<String>) -> bool {
    value matches Some(set) ==> !text::blank(set@)
}

impl MenuItem {
    /// What holds of an item on its own.
    pub open spec fn well_formed(self) -> bool {
        &&& identity::solid(self.stable_id@)
        &&& !text::blank(self.label@)
        &&& acceptable_command(self.command)
        &&& self.key matches Some(key) ==> key@.len() == 1
        &&& absent_or_not_blank(self.description)
        &&& absent_or_not_blank(self.group)
        &&& forall|i: int| 0 <= i < self.tags@.len() ==> !text::blank((#[trigger] self.tags@[i])@)
    }
}

impl MenuConfig {
    /// What holds of every menu: there are items, not too many of them, each is in
    /// order, no two share an identity or a binding, and no binding is taken by
    /// the menu itself.
    pub open spec fn well_formed(self) -> bool {
        &&& !text::blank(self.title@)
        &&& self.quit_key@.len() == 1
        &&& binding::acceptable_key_format(self.key_format@)
        &&& 0 < self.items@.len() <= MAX_MENU_ITEMS
        &&& forall|i: int| 0 <= i < self.items@.len() ==> (#[trigger] self.items@[i]).well_formed()
        &&& self.distinct_identities()
        &&& self.distinct_bindings()
    }

    pub open spec fn distinct_identities(self) -> bool {
        forall|i: int, j: int|
            0 <= i < j < self.items@.len() ==> (#[trigger] self.items@[i]).stable_id@ != (
            #[trigger] self.items@[j]).stable_id@
    }

    pub open spec fn distinct_bindings(self) -> bool {
        &&& forall|i: int|
            0 <= i < self.items@.len() ==> (normalized_binding(
                (#[trigger] self.items@[i]).key,
            ) matches Some(key) ==> !navigation_key(key) && key != text::lowered(self.quit_key@))
        &&& forall|i: int, j: int|
            0 <= i < j < self.items@.len() && normalized_binding(
                (#[trigger] self.items@[i]).key,
            ) is Some ==> normalized_binding(self.items@[i].key) != normalized_binding(
                (#[trigger] self.items@[j]).key,
            )
    }
}

} // verus!
