use lazymenu_cli::command::{
    command_display, exit_status, run_command, CommandEnd, CommandSpec, Launch,
    EXIT_COMMAND_NOT_FOUND, EXIT_INTERRUPTED,
};
use lazymenu_cli::keys::{
    ctrl_c, key_character, key_text, next_key, Input, KeyCode, KeyEvent, KeyKind,
};
use lazymenu_cli::menu::MenuItem;
use lazymenu_cli::options::{
    listing_line, parse_options, resolve_config_path, usage, xdg_state_home, Options, Place,
    Request, SYSTEM_CONFIG_PATH,
};
use lazymenu_cli::session::check_terminal;
use lazymenu_cli::terminal::{Progress, TerminalGuard, TerminalStep};
use std::path::PathBuf;

fn arguments(values: &[&str]) -> Vec<String> {
    values.iter().map(|value| (*value).to_owned()).collect()
}

fn key(code: KeyCode) -> KeyEvent {
    KeyEvent {
        code,
        control: false,
        alt: false,
    }
}

#[test]
fn project_menu_takes_priority_over_the_system_menu() {
    let local_path = PathBuf::from("menu.toml");
    let system_path = PathBuf::from("system-menu.toml");
    let resolve = |local_exists: bool, system_exists: bool| {
        resolve_config_path(
            None,
            Place {
                path: local_path.clone(),
                is_file: local_exists,
            },
            Place {
                path: system_path.clone(),
                is_file: system_exists,
            },
            "system-menu.toml",
        )
    };
    assert_eq!(resolve(false, true).expect("system fallback"), system_path);
    assert_eq!(resolve(true, true).expect("project menu"), local_path);
    assert_eq!(resolve(true, false).expect("project menu"), local_path);
    assert_eq!(
        resolve(false, false),
        Err("lazymenu-cli: cannot find menu.toml in the current directory or system-menu.toml".to_owned())
    );
}

#[test]
fn explicit_config_path_takes_priority_over_existing_menus() {
    let explicit_path = PathBuf::from("custom-menu.toml");
    for (local_exists, system_exists) in [(true, true), (true, false), (false, true), (false, false)] {
        assert_eq!(
            resolve_config_path(
                Some(explicit_path.clone()),
                Place {
                    path: PathBuf::from("menu.toml"),
                    is_file: local_exists,
                },
                Place {
                    path: PathBuf::from(SYSTEM_CONFIG_PATH),
                    is_file: system_exists,
                },
                SYSTEM_CONFIG_PATH,
            )
            .expect("explicit path"),
            explicit_path
        );
    }
}

#[test]
fn missing_executable_returns_command_not_found_status() {
    let item = MenuItem {
        stable_id: "id:missing".to_owned(),
        label: "Missing".to_owned(),
        command: CommandSpec::Direct(vec![
            "lazymenu-cli-command-that-does-not-exist".to_owned(),
        ]),
        key: None,
        confirm: false,
        description: None,
        group: None,
        tags: Vec::new(),
        favorite: false,
    };
    assert_eq!(
        run_command(&item.command, false, false),
        Launch::Start {
            line: "\nRunning: lazymenu-cli-command-that-does-not-exist\n".to_owned(),
            program: "lazymenu-cli-command-that-does-not-exist".to_owned(),
            arguments: Vec::new(),
        }
    );
    assert_eq!(
        exit_status(CommandEnd::NotStarted, false),
        EXIT_COMMAND_NOT_FOUND
    );
}

#[test]
fn scripts_go_to_the_shell_of_the_platform() {
    let command = CommandSpec::Shell("ls | wc".to_owned());
    let start = |program: &str, flag: &str| Launch::Start {
        line: "\nRunning: ls | wc\n".to_owned(),
        program: program.to_owned(),
        arguments: vec![flag.to_owned(), "ls | wc".to_owned()],
    };
    assert_eq!(run_command(&command, false, false), start("sh", "-c"));
    assert_eq!(run_command(&command, false, true), start("cmd", "/C"));
}

#[test]
fn programs_get_their_arguments() {
    let command = CommandSpec::Direct(arguments(&["cargo", "test", "--all"]));
    for windows in [false, true] {
        assert_eq!(
            run_command(&command, false, windows),
            Launch::Start {
                line: "\nRunning: cargo test --all\n".to_owned(),
                program: "cargo".to_owned(),
                arguments: arguments(&["test", "--all"]),
            }
        );
    }
}

#[test]
fn a_dry_run_starts_nothing() {
    let command = CommandSpec::Direct(arguments(&["cargo", "test"]));
    assert_eq!(
        run_command(&command, true, false),
        Launch::Announce("would run: cargo test".to_owned())
    );
    assert_eq!(
        run_command(&CommandSpec::Direct(Vec::new()), true, false),
        Launch::Announce("would run: ".to_owned())
    );
    assert_eq!(command_display(&command), "cargo test");
    assert_eq!(command_display(&CommandSpec::Shell(" ls".to_owned())), " ls");
}

#[test]
fn the_end_of_a_command_gives_its_status() {
    assert_eq!(exit_status(CommandEnd::Announced, false), 0);
    assert_eq!(exit_status(CommandEnd::Announced, true), 0);
    assert_eq!(exit_status(CommandEnd::Exited(0), true), 0);
    assert_eq!(exit_status(CommandEnd::Exited(7), false), 7);
    assert_eq!(exit_status(CommandEnd::NotStarted, true), 127);
    assert_eq!(exit_status(CommandEnd::Killed, false), 1);
    assert_eq!(exit_status(CommandEnd::Killed, true), EXIT_INTERRUPTED);
}

#[test]
fn options_are_read() {
    let options = |config_path: Option<&str>, dry_run: bool, print_items: bool| {
        Ok(Request::Run(Options {
            config_path: config_path.map(str::to_owned),
            dry_run,
            print_items,
        }))
    };
    assert_eq!(parse_options(&arguments(&[])), options(None, false, false));
    assert_eq!(
        parse_options(&arguments(&["--dry-run", "--print"])),
        options(None, true, true)
    );
    assert_eq!(
        parse_options(&arguments(&["--config", "a", "--config", "--print"])),
        options(Some("--print"), false, false)
    );
}

#[test]
fn help_and_mistakes_end_the_reading() {
    assert_eq!(
        parse_options(&arguments(&["--print", "-h", "--wrong"])),
        Ok(Request::Help)
    );
    assert_eq!(parse_options(&arguments(&["--help"])), Ok(Request::Help));
    assert_eq!(
        parse_options(&arguments(&["--wrong", "--help"])),
        Err("lazymenu-cli: unknown option: --wrong".to_owned())
    );
    assert_eq!(
        parse_options(&arguments(&["--print", "--config"])),
        Err("lazymenu-cli: --config needs a path".to_owned())
    );
    assert_eq!(
        parse_options(&arguments(&[""])),
        Err("lazymenu-cli: unknown option: ".to_owned())
    );
}

#[test]
fn the_usage_names_every_option() {
    let shown = usage();
    assert!(shown.starts_with("Usage: lazymenu-cli [options]\n\nOptions:\n"));
    for option in ["--config PATH", "--dry-run", "--print", "-h, --help"] {
        assert!(shown.contains(option));
    }
    assert!(shown.ends_with("Show this help"));
}

#[test]
fn items_are_listed_for_scripts() {
    let mut item = MenuItem {
        stable_id: "id:one".to_owned(),
        label: "One".to_owned(),
        command: CommandSpec::Direct(arguments(&["echo", "one"])),
        key: None,
        confirm: false,
        description: None,
        group: None,
        tags: Vec::new(),
        favorite: false,
    };
    assert_eq!(listing_line(&item), "-\tOne\techo one");
    item.key = Some("1".to_owned());
    assert_eq!(listing_line(&item), "1\tOne\techo one");
}

#[test]
fn state_is_kept_where_it_is_configured() {
    let configured = PathBuf::from("/state");
    let usual = PathBuf::from("/home/someone/.local/state");
    assert_eq!(
        xdg_state_home(Some(configured.clone()), true, Some(usual.clone())),
        Some(configured.clone())
    );
    assert_eq!(
        xdg_state_home(Some(configured.clone()), false, Some(usual.clone())),
        Some(usual.clone())
    );
    assert_eq!(xdg_state_home(None, false, Some(usual.clone())), Some(usual));
    assert_eq!(xdg_state_home(Some(configured), false, None), None);
    assert_eq!(xdg_state_home::<PathBuf>(None, true, None), None);
}

#[test]
fn keys_count_when_pressed_or_held() {
    let enter = key(KeyCode::Enter);
    assert_eq!(next_key(Input::Key(enter, KeyKind::Press)), Some(enter));
    assert_eq!(next_key(Input::Key(enter, KeyKind::Repeat)), Some(enter));
    assert_eq!(next_key(Input::Key(enter, KeyKind::Release)), None);
    assert_eq!(next_key(Input::Other), None);
}

#[test]
fn keys_are_told_apart() {
    let mut pressed = key(KeyCode::Char('c'));
    assert!(!ctrl_c(pressed));
    assert_eq!(key_character(pressed), Some('c'));
    pressed.control = true;
    assert!(ctrl_c(pressed));
    assert_eq!(key_character(pressed), None);
    assert_eq!(key_text(pressed), Some("c".to_owned()));
    pressed.code = KeyCode::Char('C');
    assert!(!ctrl_c(pressed));
    pressed.control = false;
    pressed.alt = true;
    assert_eq!(key_character(pressed), None);
    assert_eq!(key_text(pressed), Some("c".to_owned()));
    assert_eq!(key_text(key(KeyCode::Char('É'))), Some("é".to_owned()));
    assert_eq!(key_text(key(KeyCode::Enter)), None);
    assert_eq!(key_character(key(KeyCode::Esc)), None);
}

#[test]
fn the_menu_needs_a_terminal() {
    assert_eq!(check_terminal(true, true), Ok(()));
    for (input, output) in [(true, false), (false, true), (false, false)] {
        assert_eq!(
            check_terminal(input, output),
            Err("lazymenu-cli: interactive mode needs a terminal; use --print for scripts".to_owned())
        );
    }
}

#[test]
fn the_terminal_is_set_up_and_restored() {
    let mut guard = TerminalGuard::new();
    assert_eq!(guard.leave(None, true), Progress::Finished);
    assert_eq!(guard.enter(None, true), Progress::Do(TerminalStep::EnableRawMode));
    assert_eq!(
        guard.enter(Some(TerminalStep::EnableRawMode), true),
        Progress::Do(TerminalStep::ShowMenuScreen)
    );
    assert_eq!(
        guard.enter(Some(TerminalStep::ShowMenuScreen), true),
        Progress::Finished
    );
    assert_eq!(guard.leave(None, true), Progress::Do(TerminalStep::DisableRawMode));
    assert_eq!(
        guard.leave(Some(TerminalStep::DisableRawMode), true),
        Progress::Do(TerminalStep::RestoreScreen)
    );
    assert_eq!(
        guard.leave(Some(TerminalStep::RestoreScreen), true),
        Progress::Finished
    );
    assert_eq!(guard.leave(None, true), Progress::Finished);
}

#[test]
fn failures_of_the_terminal_are_noticed() {
    let mut guard = TerminalGuard::new();
    assert_eq!(
        guard.enter(Some(TerminalStep::EnableRawMode), false),
        Progress::Failed
    );
    assert_eq!(guard.leave(None, true), Progress::Finished);
    guard.enter(Some(TerminalStep::EnableRawMode), true);
    assert_eq!(
        guard.enter(Some(TerminalStep::ShowMenuScreen), false),
        Progress::Undo
    );
    assert_eq!(
        guard.leave(Some(TerminalStep::DisableRawMode), false),
        Progress::Failed
    );
    assert_eq!(guard.leave(None, true), Progress::Do(TerminalStep::DisableRawMode));
}
