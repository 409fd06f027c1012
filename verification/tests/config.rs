use lazymenu_cli::binding::{format_binding, normalize_key, one_character, valid_key_format};
use lazymenu_cli::color::{parse_color, Color};
use lazymenu_cli::command::CommandSpec;
use lazymenu_cli::config::{load_config, parse_config_text};
use lazymenu_cli::error::config_error;
use lazymenu_cli::identity::{stable_hash, valid_explicit_id};
use lazymenu_cli::menu::{
    FileConfig, FileItem, MenuConfig, MenuSection, MAX_CONFIG_BYTES, MAX_MENU_ITEMS,
};
use lazymenu_cli::order::ordered_items;
use lazymenu_cli::recent::RecentStore;
use lazymenu_cli::search::item_match_score;
use toml::{Table, Value};

const DEFAULT_MENU: &str = r#"
[menu]
title = "Workspace tools"
quit_key = "q"
loop = true

[[items]]
id = "list-files"
label = "List files"
key = "l"
command = "ls -la"
group = "Files"

[[items]]
id = "show-directory"
label = "Show directory"
key = "d"
command = ["pwd"]
group = "Files"
favorite = true

[[items]]
id = "show-date"
label = "Show date"
command = ["date"]
group = "System"

[[items]]
id = "disk-usage"
label = "Disk usage"
command = ["df", "-h"]
group = "System"
"#;

fn text_field(table: &Table, name: &str) -> Option<String> {
    table.get(name).and_then(Value::as_str).map(str::to_owned)
}

fn flag_field(table: &Table, name: &str) -> Option<bool> {
    table.get(name).and_then(Value::as_bool)
}

fn texts_field(value: &Value) -> Vec<String> {
    value
        .as_array()
        .expect("an array")
        .iter()
        .map(|part| part.as_str().expect("a string").to_owned())
        .collect()
}

fn item_of(table: &Table) -> FileItem {
    let command = table.get("command").expect("a command");
    FileItem {
        id: text_field(table, "id"),
        label: text_field(table, "label").expect("a label"),
        command: match command.as_str() {
            Some(script) => CommandSpec::Shell(script.to_owned()),
            None => CommandSpec::Direct(texts_field(command)),
        },
        key: text_field(table, "key"),
        confirm: flag_field(table, "confirm").unwrap_or(false),
        description: text_field(table, "description"),
        group: text_field(table, "group"),
        tags: table.get("tags").map(texts_field).unwrap_or_default(),
        favorite: flag_field(table, "favorite").unwrap_or(false),
    }
}

fn read_toml(text: &str) -> Result<FileConfig, String> {
    let file: Table = text.parse().map_err(|error: toml::de::Error| error.to_string())?;
    let menu = file
        .get("menu")
        .and_then(Value::as_table)
        .cloned()
        .unwrap_or_default();
    let items = file
        .get("items")
        .and_then(Value::as_array)
        .cloned()
        .unwrap_or_default();
    Ok(FileConfig {
        menu: MenuSection {
            title: text_field(&menu, "title"),
            quit_key: text_field(&menu, "quit_key"),
            loop_menu: flag_field(&menu, "loop"),
            key_format: text_field(&menu, "key_format"),
            selected_foreground: text_field(&menu, "selected_foreground"),
            selected_background: text_field(&menu, "selected_background"),
            selected_bold: flag_field(&menu, "selected_bold"),
        },
        items: items
            .iter()
            .map(|item| item_of(item.as_table().expect("a table")))
            .collect(),
    })
}

fn load(text: &str) -> Result<MenuConfig, String> {
    parse_config_text(read_toml(text))
}

fn complaint(text: &str) -> String {
    load(text).expect_err("the file is refused")
}

fn complaint_of_item(fields: &str) -> String {
    complaint(&format!("[[items]]\n{fields}\n"))
}

#[test]
fn loads_the_default_menu() {
    let config = load(DEFAULT_MENU).expect("default config loads");
    assert_eq!(config.title, "Workspace tools");
    assert!(config.loop_menu);
    assert_eq!(config.items.len(), 4);
}

#[test]
fn menu_loop_defaults_on_and_can_be_disabled() {
    let default_config = load(
        r#"
                [[items]]
                label = "One"
                command = "echo one"
            "#,
    )
    .expect("default loop behavior loads");
    assert!(default_config.loop_menu);

    let one_shot_config = load(
        r#"
                [menu]
                loop = false

                [[items]]
                label = "One"
                command = "echo one"
            "#,
    )
    .expect("one-shot behavior loads");
    assert!(!one_shot_config.loop_menu);
}

#[test]
fn rejects_reserved_bindings() {
    let result = load(
        r#"
                [[items]]
                label = "One"
                key = "q"
                command = "echo one"
            "#,
    );
    assert!(result.unwrap_err().contains("reserved key binding"));
}

#[test]
fn loads_custom_menu_presentation() {
    let config = load(
        r##"
                [menu]
                key_format = "{key}:"
                selected_foreground = "white"
                selected_background = "#123456"
                selected_bold = false

                [[items]]
                label = "One"
                key = "1"
                command = "echo one"
            "##,
    )
    .expect("custom presentation loads");
    assert_eq!(format_binding(&config.key_format, "1"), "1:");
    assert_eq!(config.selected_foreground, Color::White);
    assert_eq!(
        config.selected_background,
        Color::Rgb {
            r: 0x12,
            g: 0x34,
            b: 0x56
        }
    );
    assert!(!config.selected_bold);
}

#[test]
fn rejects_invalid_menu_presentation() {
    let missing_placeholder = load(
        r#"
                [menu]
                key_format = "key:"

                [[items]]
                label = "One"
                command = "echo one"
            "#,
    );
    assert!(missing_placeholder.unwrap_err().contains("key_format"));

    let invalid_color = load(
        r#"
                [menu]
                selected_background = "invisible"

                [[items]]
                label = "One"
                command = "echo one"
            "#,
    );
    assert!(invalid_color.unwrap_err().contains("selected_background"));
}

#[test]
fn fuzzy_search_matches_metadata() {
    let config = load(
        r#"
                [[items]]
                id = "deploy-prod"
                label = "Publish release"
                command = ["deploy", "--production"]
                group = "Deployment"
                tags = ["ship", "production"]
                description = "Deploy the current release"
                favorite = true
            "#,
    )
    .expect("config loads");
    assert!(item_match_score(&config.items[0], "dply prod").is_some());
    assert!(config.items[0].favorite);
    assert_eq!(
        item_match_score(&config.items[0], "dply prod"),
        Some(112 + 600 + 144 + 550)
    );
    assert_eq!(item_match_score(&config.items[0], "REL"), Some(93 + 1_000));
    assert_eq!(item_match_score(&config.items[0], "dply zebra"), None);
    assert_eq!(item_match_score(&config.items[0], " \t"), Some(0));
}

#[test]
fn favorites_and_recents_are_ranked_first() {
    let config = load(DEFAULT_MENU).expect("default config loads");
    let recents = RecentStore {
        ids: vec!["id:show-date".to_owned()],
    };
    let ordered = ordered_items(&config, "", &recents);
    assert_eq!(config.items[ordered[0]].stable_id, "id:show-directory");
    assert_eq!(config.items[ordered[1]].stable_id, "id:show-date");
}

#[test]
fn rejects_more_than_the_item_limit() {
    let mut config = String::new();
    for index in 0..=MAX_MENU_ITEMS {
        config.push_str(&format!(
            "[[items]]\nlabel = \"Item {index}\"\ncommand = [\"true\"]\n"
        ));
    }
    assert!(load(&config).unwrap_err().contains("maximum is 1000"));
    assert_eq!(
        complaint(&config),
        "lazymenu-cli: menu contains 1001 items; maximum is 1000"
    );
}

#[test]
fn as_many_items_as_the_limit_are_accepted() {
    let mut config = String::new();
    for index in 0..MAX_MENU_ITEMS {
        config.push_str(&format!(
            "[[items]]\nlabel = \"Item {index}\"\ncommand = [\"true\"]\n"
        ));
    }
    assert_eq!(load(&config).expect("as many as allowed").items.len(), 1_000);
}

#[test]
fn defaults_are_filled_in() {
    let config = load("[[items]]\nlabel = \"One\"\ncommand = \"echo one\"\n").expect("loads");
    assert_eq!(config.title, "Menu");
    assert_eq!(config.quit_key, "q");
    assert_eq!(config.key_format, "[{key}]");
    assert_eq!(config.selected_foreground, Color::Black);
    assert_eq!(config.selected_background, Color::Cyan);
    assert!(config.selected_bold);
    let item = &config.items[0];
    assert_eq!(item.stable_id, "auto:01b46c0912b59561");
    assert_eq!(item.label, "One");
    assert_eq!(item.command, CommandSpec::Shell("echo one".to_owned()));
    assert_eq!(item.key, None);
    assert_eq!(item.description, None);
    assert_eq!(item.group, None);
    assert!(item.tags.is_empty());
    assert!(!item.confirm);
    assert!(!item.favorite);
}

#[test]
fn every_problem_of_the_menu_table_is_named() {
    let item = "[[items]]\nlabel = \"One\"\ncommand = \"echo one\"\n";
    let told = |section: &str| complaint(&format!("[menu]\n{section}\n{item}"));
    assert_eq!(
        told("selected_foreground = \"pale\""),
        "lazymenu-cli: menu.selected_foreground must be a named color or #RRGGBB"
    );
    assert_eq!(
        told("selected_background = \"#12345\""),
        "lazymenu-cli: menu.selected_background must be a named color or #RRGGBB"
    );
    assert_eq!(
        told("title = \" \\t \""),
        "lazymenu-cli: menu.title must be a non-empty string"
    );
    assert_eq!(
        told("quit_key = \"qq\""),
        "lazymenu-cli: menu.quit_key must be one character"
    );
    assert_eq!(
        told("quit_key = \"\""),
        "lazymenu-cli: menu.quit_key must be one character"
    );
    assert_eq!(
        told("key_format = \"{key}{key}\""),
        "lazymenu-cli: menu.key_format must contain {key} exactly once, use no control characters, and be at most 32 characters"
    );
    assert_eq!(
        complaint("[menu]\ntitle = \"Empty\"\n"),
        "lazymenu-cli: at least one [[items]] table is required"
    );
}

#[test]
fn every_problem_of_an_item_is_named() {
    assert_eq!(
        complaint_of_item("label = \"  \"\ncommand = \"true\""),
        "lazymenu-cli: items[1].label must be a non-empty string"
    );
    assert_eq!(
        complaint_of_item("label = \"One\"\ncommand = \" \""),
        "lazymenu-cli: items[1].command must be non-empty"
    );
    assert_eq!(
        complaint_of_item("label = \"One\"\ncommand = []"),
        "lazymenu-cli: items[1].command must be a non-empty array of non-empty strings"
    );
    assert_eq!(
        complaint_of_item("label = \"One\"\ncommand = [\"echo\", \"\"]"),
        "lazymenu-cli: items[1].command must be a non-empty array of non-empty strings"
    );
    assert_eq!(
        complaint_of_item("label = \"One\"\ncommand = \"true\"\nkey = \"ab\""),
        "lazymenu-cli: items[1].key must be one character"
    );
    assert_eq!(
        complaint_of_item("label = \"One\"\ncommand = \"true\"\ndescription = \"\""),
        "lazymenu-cli: items[1].description must be non-empty when set"
    );
    assert_eq!(
        complaint_of_item("label = \"One\"\ncommand = \"true\"\ngroup = \" \""),
        "lazymenu-cli: items[1].group must be non-empty when set"
    );
    assert_eq!(
        complaint_of_item("label = \"One\"\ncommand = \"true\"\ntags = [\"a\", \" \"]"),
        "lazymenu-cli: items[1].tags must contain only non-empty strings"
    );
    assert_eq!(
        complaint_of_item("label = \"One\"\ncommand = \"true\"\nid = \"a b\""),
        "lazymenu-cli: items[1].id may contain only letters, numbers, '.', '_', and '-'"
    );
}

#[test]
fn a_direct_command_may_hold_blank_arguments() {
    let config =
        load("[[items]]\nlabel = \"One\"\ncommand = [\"printf\", \" \"]\n").expect("loads");
    assert_eq!(
        config.items[0].command,
        CommandSpec::Direct(vec!["printf".to_owned(), " ".to_owned()])
    );
}

#[test]
fn the_second_of_two_like_items_is_refused() {
    let twice = "[[items]]\nlabel = \"One\"\ncommand = \"true\"\n[[items]]\nlabel = \"One\"\ncommand = [\"true\"]\n";
    assert_eq!(
        complaint(twice),
        "lazymenu-cli: items[2] has a duplicate item identity; add unique id fields"
    );
    let told_apart = "[[items]]\nlabel = \"One\"\ncommand = \"true\"\n[[items]]\nid = \"other\"\nlabel = \"One\"\ncommand = [\"true\"]\n";
    assert_eq!(load(told_apart).expect("loads").items[1].stable_id, "id:other");
}

#[test]
fn bindings_are_taken_in_both_cases() {
    for key in ["q", "Q", "j", "J", "k", "K", "/"] {
        assert_eq!(
            complaint_of_item(&format!("label = \"One\"\ncommand = \"true\"\nkey = \"{key}\"")),
            format!("lazymenu-cli: duplicate or reserved key binding: '{key}'")
        );
    }
    let twice = "[[items]]\nlabel = \"One\"\ncommand = \"true\"\nkey = \"x\"\n[[items]]\nlabel = \"Two\"\ncommand = \"true\"\nkey = \"X\"\n";
    assert_eq!(
        complaint(twice),
        "lazymenu-cli: duplicate or reserved key binding: 'X'"
    );
    let free = "[menu]\nquit_key = \"x\"\n[[items]]\nlabel = \"One\"\ncommand = \"true\"\nkey = \"q\"\n";
    assert!(load(free).is_ok());
}

#[test]
fn text_that_is_no_toml_is_refused() {
    let message = complaint("menu = [");
    assert!(message.starts_with("lazymenu-cli: invalid TOML: "));
    assert_eq!(
        parse_config_text(Err("at line 3".to_owned())).expect_err("refused"),
        "lazymenu-cli: invalid TOML: at line 3"
    );
}

#[test]
fn configuration_files_are_limited_in_size() {
    assert_eq!(
        load_config("menu.toml", Err("not found".to_owned())),
        Err("lazymenu-cli: cannot read menu.toml: not found".to_owned())
    );
    assert_eq!(
        load_config("menu.toml", Ok("[menu]\n".to_owned())),
        Ok("[menu]\n".to_owned())
    );
    let largest = "#".repeat(MAX_CONFIG_BYTES);
    assert_eq!(load_config("menu.toml", Ok(largest.clone())), Ok(largest.clone()));
    assert_eq!(
        load_config("menu.toml", Ok(format!("{largest}#"))),
        Err("lazymenu-cli: configuration exceeds the 1048576 byte limit".to_owned())
    );
    let wide = "é".repeat(MAX_CONFIG_BYTES / 2);
    assert!(load_config("menu.toml", Ok(wide.clone())).is_ok());
    assert!(load_config("menu.toml", Ok(format!("{wide}é"))).is_err());
}

#[test]
fn errors_name_the_program() {
    assert_eq!(config_error("no"), "lazymenu-cli: no");
}

#[test]
fn colors_are_known_by_name_and_by_value() {
    let names = [
        ("default", Color::Reset),
        ("reset", Color::Reset),
        ("black", Color::Black),
        ("dark_grey", Color::DarkGrey),
        ("dark_gray", Color::DarkGrey),
        ("grey", Color::Grey),
        ("gray", Color::Grey),
        ("white", Color::White),
        ("dark_red", Color::DarkRed),
        ("red", Color::Red),
        ("dark_green", Color::DarkGreen),
        ("green", Color::Green),
        ("dark_yellow", Color::DarkYellow),
        ("yellow", Color::Yellow),
        ("dark_blue", Color::DarkBlue),
        ("blue", Color::Blue),
        ("dark_magenta", Color::DarkMagenta),
        ("magenta", Color::Magenta),
        ("dark_cyan", Color::DarkCyan),
        ("cyan", Color::Cyan),
    ];
    for (name, color) in names {
        assert_eq!(parse_color(name, "field"), Ok(color));
        let spelled = format!(" {} ", name.to_uppercase().replace('_', "-"));
        assert_eq!(parse_color(&spelled, "field"), Ok(color));
    }
    assert_eq!(
        parse_color("#fFa00B", "field"),
        Ok(Color::Rgb {
            r: 0xff,
            g: 0xa0,
            b: 0x0b
        })
    );
}

#[test]
fn other_texts_are_no_colors() {
    for value in ["", "#", "#12345", "#1234567", "123456", "#12345g", "# 1 2 3", "#é2345", "dark red", "#++1122", "#+1+2+3", "#+1+2+f", "#-1-2-3"] {
        assert_eq!(
            parse_color(value, "selected_background"),
            Err("lazymenu-cli: menu.selected_background must be a named color or #RRGGBB".to_owned())
        );
    }
}

#[test]
fn one_character_is_one_character() {
    assert!(one_character("a"));
    assert!(one_character("é"));
    assert!(!one_character(""));
    assert!(!one_character("ab"));
}

#[test]
fn keys_are_compared_in_lowercase() {
    assert_eq!(normalize_key("Q"), "q");
    assert_eq!(normalize_key("É"), "é");
    assert_eq!(normalize_key("/"), "/");
    assert_eq!(normalize_key("İ").chars().count(), 2);
}

#[test]
fn bindings_are_shown_in_the_format() {
    assert_eq!(format_binding("[{key}]", "t"), "[t]");
    assert_eq!(format_binding("{key})", "é"), "é)");
    assert_eq!(format_binding("{{key}}", "t"), "{t}");
    assert_eq!(format_binding("{key}{key}", "ab"), "abab");
    assert_eq!(format_binding("{ke{key", "t"), "{ke{key");
    assert_eq!(format_binding("", "t"), "");
}

#[test]
fn key_formats_hold_the_placeholder_once() {
    assert!(valid_key_format("{key}"));
    assert!(valid_key_format("{{key}}"));
    assert!(valid_key_format(&format!("{{key}}{}", "é".repeat(27))));
    assert!(!valid_key_format(&format!("{{key}}{}", "é".repeat(28))));
    assert!(!valid_key_format(""));
    assert!(!valid_key_format("key"));
    assert!(!valid_key_format("{key} or {key}"));
    assert!(!valid_key_format("{key}\n"));
}

#[test]
fn only_control_characters_spoil_a_key_format() {
    for character in '\0'..=char::MAX {
        let is_control = matches!(u32::from(character), 0..=0x1f | 0x7f..=0x9f);
        assert_eq!(valid_key_format(&format!("{{key}}{character}")), !is_control);
    }
}

#[test]
fn hashes_are_stable() {
    assert_eq!(stable_hash(""), "auto:cbf29ce484222325");
    assert_eq!(stable_hash("a"), "auto:af63dc4c8601ec8c");
    assert_eq!(stable_hash("foobar"), "auto:85944171f73967e8");
    assert_eq!(stable_hash("Ünï"), "auto:03ce6396e4a7dc36");
}

#[test]
fn explicit_ids_hold_few_characters() {
    assert!(valid_explicit_id("run-tests_2.0"));
    assert!(valid_explicit_id("A"));
    assert!(!valid_explicit_id(""));
    assert!(!valid_explicit_id("é"));
    assert!(!valid_explicit_id("a/b"));
    assert!(!valid_explicit_id("id:a"));
}

#[test]
fn an_identity_survives_a_new_label() {
    let before = "[[items]]\nid = \"keep\"\nlabel = \"One\"\ncommand = \"true\"\n";
    let after = "[[items]]\nid = \"keep\"\nlabel = \"Two\"\ncommand = [\"false\"]\n";
    assert_eq!(
        load(before).expect("loads").items[0].stable_id,
        load(after).expect("loads").items[0].stable_id
    );
}
