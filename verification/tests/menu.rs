use lazymenu_cli::color::Color;
use lazymenu_cli::command::{CommandSpec, EXIT_INTERRUPTED};
use lazymenu_cli::keys::{KeyCode, KeyEvent};
use lazymenu_cli::menu::{MenuConfig, MenuItem};
use lazymenu_cli::recent::RecentStore;
use lazymenu_cli::render::{
    colors_enabled, confirm_prompt, page_size, render, return_prompt, Draw, Screen,
};
use lazymenu_cli::session::{Action, Event, Phase, Session};

const PAGE: usize = 2;

fn item(id: &str, label: &str, key: Option<&str>) -> MenuItem {
    MenuItem {
        stable_id: format!("id:{id}"),
        label: label.to_owned(),
        command: CommandSpec::Direct(vec!["echo".to_owned(), id.to_owned()]),
        key: key.map(str::to_owned),
        confirm: false,
        description: None,
        group: None,
        tags: Vec::new(),
        favorite: false,
    }
}

fn menu() -> MenuConfig {
    let mut careful = item("careful", "Careful", Some("Y"));
    careful.confirm = true;
    careful.description = Some("Takes care".to_owned());
    let mut starred = item("starred", "Starred", None);
    starred.favorite = true;
    starred.group = Some("Best".to_owned());
    MenuConfig {
        title: "Tools".to_owned(),
        quit_key: "x".to_owned(),
        loop_menu: true,
        key_format: "{key})".to_owned(),
        selected_foreground: Color::White,
        selected_background: Color::DarkBlue,
        selected_bold: true,
        items: vec![
            item("alpha", "Alpha", Some("a")),
            careful,
            starred,
            item("beta", "Beta", None),
        ],
    }
}

fn plain(code: KeyCode) -> KeyEvent {
    KeyEvent {
        code,
        control: false,
        alt: false,
    }
}

fn with_control(code: KeyCode) -> KeyEvent {
    KeyEvent {
        code,
        control: true,
        alt: false,
    }
}

fn pressed(key: KeyEvent) -> Event<String> {
    Event::Key { key, page: PAGE }
}

fn press(session: &mut Session, config: &MenuConfig, code: KeyCode) -> Action<String> {
    session.step(config, false, pressed(plain(code)))
}

fn enter_query(session: &mut Session, config: &MenuConfig, query: &str) {
    for character in query.chars() {
        assert_eq!(
            press(session, config, KeyCode::Char(character)),
            Action::AwaitKey
        );
    }
}

fn started(config: &MenuConfig) -> Session {
    Session::start(config, RecentStore::load(None))
}

fn exit(status: i32) -> Action<String> {
    Action::Exit {
        status,
        complaint: None,
    }
}

fn reported(session: &Session) -> Option<(&str, bool)> {
    session
        .message
        .as_ref()
        .map(|(text, failed)| (text.as_str(), *failed))
}

fn texts(steps: &[Draw<String>]) -> Vec<&str> {
    steps
        .iter()
        .filter_map(|step| match step {
            Draw::Text(text) => Some(text.as_str()),
            _ => None,
        })
        .collect()
}

fn text(value: &str) -> Draw<String> {
    Draw::Text(value.to_owned())
}

#[test]
fn a_session_starts_with_all_items() {
    let session = started(&menu());
    assert_eq!(session.ordered, vec![2, 0, 1, 3]);
    assert_eq!(session.selected, 0);
    assert!(!session.search_mode);
    assert_eq!(session.query, "");
    assert_eq!(session.phase, Phase::Choosing);
    assert_eq!(session.message, None);
}

#[test]
fn navigation_keys_move_through_the_items() {
    let config = menu();
    let mut session = started(&config);
    let moves = [
        (KeyCode::Up, 0),
        (KeyCode::Down, 1),
        (KeyCode::Char('j'), 2),
        (KeyCode::Char('k'), 1),
        (KeyCode::PageDown, 3),
        (KeyCode::Down, 3),
        (KeyCode::PageUp, 1),
        (KeyCode::PageUp, 0),
        (KeyCode::End, 3),
        (KeyCode::PageDown, 3),
        (KeyCode::Up, 2),
        (KeyCode::Home, 0),
    ];
    for (code, place) in moves {
        assert_eq!(press(&mut session, &config, code), Action::AwaitKey);
        assert_eq!(session.selected, place);
    }
    session.step(
        &config,
        false,
        Event::Key {
            key: plain(KeyCode::PageDown),
            page: usize::MAX,
        },
    );
    assert_eq!(session.selected, 3);
}

#[test]
fn a_search_narrows_the_items() {
    let config = menu();
    let mut session = started(&config);
    press(&mut session, &config, KeyCode::End);
    press(&mut session, &config, KeyCode::Char('/'));
    assert!(session.search_mode);
    assert_eq!(session.selected, 0);
    enter_query(&mut session, &config, "be");
    assert_eq!(session.query, "be");
    assert_eq!(session.ordered, vec![3, 2]);
    press(&mut session, &config, KeyCode::Down);
    assert_eq!(session.selected, 1);
    enter_query(&mut session, &config, "t");
    assert_eq!(session.selected, 0);
    press(&mut session, &config, KeyCode::Backspace);
    assert_eq!(session.query, "be");
    enter_query(&mut session, &config, "zzz");
    assert!(session.ordered.is_empty());
    assert_eq!(press(&mut session, &config, KeyCode::Enter), Action::AwaitKey);
    assert_eq!(press(&mut session, &config, KeyCode::Down), Action::AwaitKey);
    assert_eq!(session.selected, 0);
}

#[test]
fn backspace_on_an_empty_query_does_nothing() {
    let config = menu();
    let mut session = started(&config);
    press(&mut session, &config, KeyCode::Char('/'));
    enter_query(&mut session, &config, "é");
    press(&mut session, &config, KeyCode::Backspace);
    press(&mut session, &config, KeyCode::Backspace);
    assert_eq!(session.query, "");
    assert!(session.search_mode);
}

#[test]
fn a_search_takes_characters_without_modifiers() {
    let config = menu();
    let mut session = started(&config);
    press(&mut session, &config, KeyCode::Char('/'));
    session.step(&config, false, pressed(with_control(KeyCode::Char('a'))));
    assert_eq!(session.query, "");
    press(&mut session, &config, KeyCode::Other);
    enter_query(&mut session, &config, "xjk/ ");
    assert_eq!(session.query, "xjk/ ");
}

#[test]
fn escape_clears_the_query_then_the_search_then_quits() {
    let config = menu();
    let mut session = started(&config);
    press(&mut session, &config, KeyCode::Char('/'));
    enter_query(&mut session, &config, "be");
    assert_eq!(press(&mut session, &config, KeyCode::Esc), Action::AwaitKey);
    assert!(session.search_mode);
    assert_eq!(session.query, "");
    assert_eq!(session.ordered.len(), 4);
    assert_eq!(press(&mut session, &config, KeyCode::Esc), Action::AwaitKey);
    assert!(!session.search_mode);
    assert_eq!(press(&mut session, &config, KeyCode::Esc), exit(0));
    assert_eq!(session.phase, Phase::Over);
}

#[test]
fn the_quit_key_ends_it_in_both_cases() {
    let config = menu();
    for character in ['x', 'X'] {
        let mut session = started(&config);
        assert_eq!(
            press(&mut session, &config, KeyCode::Char(character)),
            exit(0)
        );
    }
    let mut session = started(&config);
    assert_eq!(press(&mut session, &config, KeyCode::Char('q')), Action::AwaitKey);
}

#[test]
fn ctrl_c_ends_it_everywhere() {
    let config = menu();
    let interruption = with_control(KeyCode::Char('c'));
    let mut session = started(&config);
    assert_eq!(
        session.step(&config, false, pressed(interruption)),
        exit(EXIT_INTERRUPTED)
    );
    let mut session = started(&config);
    press(&mut session, &config, KeyCode::Char('/'));
    assert_eq!(
        session.step(&config, false, pressed(interruption)),
        exit(EXIT_INTERRUPTED)
    );
    let mut session = started(&config);
    press(&mut session, &config, KeyCode::Char('y'));
    assert_eq!(
        session.step(&config, false, pressed(interruption)),
        exit(EXIT_INTERRUPTED)
    );
    let mut session = started(&config);
    press(&mut session, &config, KeyCode::Enter);
    session.step(
        &config,
        true,
        Event::Ended {
            status: 0,
            interrupted: false,
        },
    );
    assert_eq!(
        session.step(&config, true, pressed(interruption)),
        exit(EXIT_INTERRUPTED)
    );
}

#[test]
fn bindings_run_their_items() {
    let config = menu();
    for character in ['a', 'A'] {
        let mut session = started(&config);
        assert_eq!(
            press(&mut session, &config, KeyCode::Char(character)),
            Action::Run {
                item: 0,
                redraw: true
            }
        );
        assert_eq!(session.selected, 1);
        assert_eq!(session.phase, Phase::Running { item: 0 });
    }
}

#[test]
fn unknown_keys_are_reported_once() {
    let config = menu();
    let mut session = started(&config);
    for code in [KeyCode::Char('?'), KeyCode::Backspace, KeyCode::Other, KeyCode::Char('J')] {
        assert_eq!(press(&mut session, &config, code), Action::AwaitKey);
        assert_eq!(
            reported(&session),
            Some(("Unknown key. Press / to search.", true))
        );
    }
    press(&mut session, &config, KeyCode::Down);
    assert_eq!(reported(&session), None);
}

#[test]
fn confirmed_items_run_after_yes_only() {
    let config = menu();
    let mut session = started(&config);
    assert_eq!(
        press(&mut session, &config, KeyCode::Char('y')),
        Action::AskToRun { item: 1 }
    );
    assert_eq!(press(&mut session, &config, KeyCode::Enter), Action::AwaitKey);
    assert_eq!(reported(&session), Some(("Cancelled.", false)));
    assert_eq!(session.phase, Phase::Choosing);
    press(&mut session, &config, KeyCode::Enter);
    assert_eq!(
        press(&mut session, &config, KeyCode::Char('Y')),
        Action::Run {
            item: 1,
            redraw: false
        }
    );
}

#[test]
fn a_finished_command_is_remembered_and_announced() {
    let config = menu();
    let mut session = Session::start(&config, RecentStore::load(Some("id:alpha\n")));
    press(&mut session, &config, KeyCode::End);
    assert_eq!(
        press(&mut session, &config, KeyCode::Enter),
        Action::Run {
            item: 3,
            redraw: true
        }
    );
    assert_eq!(
        session.step(
            &config,
            false,
            Event::Ended {
                status: 0,
                interrupted: false
            }
        ),
        Action::Store {
            contents: "id:beta\nid:alpha\n".to_owned()
        }
    );
    assert_eq!(
        session.step(&config, false, Event::Stored { complaint: None }),
        Action::AskToReturn
    );
    assert_eq!(press(&mut session, &config, KeyCode::Other), Action::AwaitKey);
    assert_eq!(reported(&session), Some(("'Beta' completed.", false)));
    assert_eq!(session.ordered, vec![2, 3, 0, 1]);
    assert_eq!(session.selected, 1);
}

#[test]
fn escape_after_a_command_quits() {
    let config = menu();
    let mut session = started(&config);
    press(&mut session, &config, KeyCode::Enter);
    session.step(
        &config,
        true,
        Event::Ended {
            status: 0,
            interrupted: false,
        },
    );
    assert_eq!(press(&mut session, &config, KeyCode::Esc), exit(0));
}

#[test]
fn failures_are_reported() {
    let config = menu();
    for (status, interrupted, report) in [
        (127, false, "'Starred' failed with status 127."),
        (-1, false, "'Starred' failed with status -1."),
        (0, true, "'Starred' interrupted."),
        (3, true, "'Starred' interrupted."),
        (130, false, "'Starred' interrupted."),
    ] {
        let mut session = started(&config);
        press(&mut session, &config, KeyCode::Enter);
        let stored = session.step(&config, false, Event::Ended { status, interrupted });
        assert_eq!(
            stored,
            Action::Store {
                contents: "id:starred\n".to_owned()
            }
        );
        assert_eq!(
            session.step(&config, false, Event::Stored { complaint: None }),
            Action::AwaitKey
        );
        assert_eq!(reported(&session), Some((report, true)));
    }
}

#[test]
fn a_failing_command_hides_no_other_failure() {
    let config = menu();
    for (status, interrupted, report) in [
        (
            3,
            false,
            "'Starred' failed with status 3. Recent state was not saved: disk full",
        ),
        (
            0,
            true,
            "'Starred' interrupted. Recent state was not saved: disk full",
        ),
    ] {
        let mut session = started(&config);
        press(&mut session, &config, KeyCode::Enter);
        session.step(&config, false, Event::Ended { status, interrupted });
        assert_eq!(
            session.step(
                &config,
                false,
                Event::Stored {
                    complaint: Some("disk full".to_owned())
                }
            ),
            Action::AwaitKey
        );
        assert_eq!(reported(&session), Some((report, true)));
        assert_eq!(session.ordered[session.selected], 2);
        let steps = session.draw(&config, Screen::new(None, false));
        assert_eq!(texts(&steps).last(), Some(&report));
    }
}

#[test]
fn a_history_that_was_not_stored_is_reported() {
    let config = menu();
    let mut session = started(&config);
    press(&mut session, &config, KeyCode::Enter);
    session.step(
        &config,
        false,
        Event::Ended {
            status: 0,
            interrupted: false,
        },
    );
    assert_eq!(
        session.step(
            &config,
            false,
            Event::Stored {
                complaint: Some("disk full".to_owned())
            }
        ),
        Action::AskToReturn
    );
    press(&mut session, &config, KeyCode::Enter);
    assert_eq!(
        reported(&session),
        Some(("Command completed; recent state was not saved: disk full", true))
    );
}

#[test]
fn a_dry_run_leaves_no_trace() {
    let config = menu();
    let mut session = started(&config);
    press(&mut session, &config, KeyCode::Enter);
    assert_eq!(
        session.step(
            &config,
            true,
            Event::Ended {
                status: 0,
                interrupted: false
            }
        ),
        Action::AskToReturn
    );
    assert!(session.recents.ids.is_empty());
}

#[test]
fn without_loop_the_first_command_ends_it() {
    let mut config = menu();
    config.loop_menu = false;
    for (status, interrupted, code) in [
        (0, false, 0),
        (7, false, 7),
        (0, true, 0),
        (7, true, 7),
        (130, false, EXIT_INTERRUPTED),
        (130, true, EXIT_INTERRUPTED),
    ] {
        let mut session = started(&config);
        press(&mut session, &config, KeyCode::Enter);
        assert_eq!(
            session.step(&config, true, Event::Ended { status, interrupted }),
            exit(code)
        );
        let mut session = started(&config);
        press(&mut session, &config, KeyCode::Enter);
        session.step(&config, false, Event::Ended { status, interrupted });
        assert_eq!(
            session.step(
                &config,
                false,
                Event::Stored {
                    complaint: Some("no room".to_owned())
                }
            ),
            Action::Exit {
                status: code,
                complaint: Some(
                    "Command completed; recent state was not saved: no room".to_owned()
                )
            }
        );
    }
}

#[test]
fn the_menu_is_drawn_with_styles() {
    let config = menu();
    let session = Session::start(&config, RecentStore::load(Some("id:beta\n")));
    let styled = |style: Vec<Draw<String>>, value: &str| {
        let mut steps = style;
        steps.push(text(value));
        steps.push(Draw::ResetColor);
        steps.push(Draw::ResetAttributes);
        steps
    };
    let at = |row: u16| Draw::MoveTo { column: 0, row };
    let mut expected = vec![Draw::ClearScreen, at(0), Draw::HideCursor];
    expected.extend(styled(vec![Draw::Foreground(Color::Cyan), Draw::Bold], "Tools"));
    expected.push(at(1));
    expected.extend(styled(vec![Draw::Dim], "────────────"));
    expected.push(at(2));
    expected.extend(styled(vec![Draw::Dim], "Press / to search"));
    expected.push(at(4));
    expected.extend(styled(
        vec![
            Draw::Foreground(Color::White),
            Draw::Background(Color::DarkBlue),
            Draw::Bold,
        ],
        "› ★    Starred  · Best        ",
    ));
    expected.push(at(5));
    expected.extend(styled(vec![], "  ↻    Beta"));
    expected.push(at(6));
    expected.extend(styled(vec![], "    a) Alpha"));
    expected.push(at(7));
    expected.extend(styled(vec![], "    Y) Careful"));
    expected.push(at(9));
    expected.extend(styled(vec![Draw::Dim], "Command: echo starred"));
    expected.push(at(10));
    expected.extend(styled(vec![Draw::Dim], "↑/↓ or j/k • PgUp/PgDn • Home…"));
    expected.push(at(11));
    expected.extend(styled(vec![Draw::Dim], "4 commands • items 1–4/4"));
    let screen = Screen::new(Some((30, 12)), true);
    assert_eq!(session.draw(&config, screen), expected);
}

#[test]
fn the_menu_is_drawn_without_styles() {
    let mut config = menu();
    config.selected_bold = false;
    let recents = RecentStore::load(None);
    let steps = render(
        &config,
        &vec![1, 3, 0],
        1,
        true,
        "quite long a query",
        &recents,
        Some(("failed", true)),
        Screen::new(Some((1, 1)), false),
    );
    assert_eq!(
        texts(&steps),
        vec![
            "Tools",
            "────────────",
            "Search: quite long …",
            "    Y) Careful",
            "›      Beta         ",
            "Command: echo beta",
            "Type to filter • ↑/…",
            "failed",
        ]
    );
    assert!(steps.iter().all(|step| matches!(
        step,
        Draw::ClearScreen | Draw::HideCursor | Draw::MoveTo { .. } | Draw::Text(_)
    )));
}

#[test]
fn an_empty_listing_is_drawn() {
    let config = menu();
    let steps = render(
        &config,
        &vec![],
        0,
        true,
        "zzz",
        &RecentStore::load(None),
        None,
        Screen::new(None, false),
    );
    assert_eq!(
        texts(&steps),
        vec![
            "Tools",
            "────────────",
            "Search: zzz_",
            "No matching commands",
            "Type to filter • ↑/↓ select • PgUp/PgDn • Enter run • Esc clear/close",
            "0 matches",
        ]
    );
    assert!(steps.contains(&Draw::MoveTo { column: 0, row: 21 }));
}

#[test]
fn reports_are_red_only_where_they_are_failures() {
    let config = menu();
    let draw = |failed: bool| {
        render(
            &config,
            &vec![1],
            0,
            false,
            "",
            &RecentStore::load(None),
            Some(("told", failed)),
            Screen::new(None, true),
        )
    };
    let style_of_report = |steps: Vec<Draw<String>>| {
        let at = steps
            .iter()
            .position(|step| *step == text("told"))
            .expect("a report");
        steps.into_iter().nth(at - 1)
    };
    assert_eq!(
        style_of_report(draw(true)),
        Some(Draw::Foreground(Color::Red))
    );
    assert_eq!(style_of_report(draw(false)), Some(Draw::Dim));
    assert!(draw(false).contains(&text("Takes care")));
}

#[test]
fn the_selected_item_stays_visible() {
    let mut config = menu();
    config.items = (0..40)
        .map(|number| item(&number.to_string(), &format!("Item {number}"), None))
        .collect();
    let ordered: Vec<usize> = (0..40).collect();
    let screen = Screen::new(Some((80, 12)), false);
    for (selected, status) in [
        (0, "40 commands • items 1–4/40"),
        (2, "40 commands • items 1–4/40"),
        (3, "40 commands • items 2–5/40"),
        (38, "40 commands • items 37–40/40"),
        (39, "40 commands • items 37–40/40"),
    ] {
        let steps = render(
            &config,
            &ordered,
            selected,
            false,
            "",
            &RecentStore::load(None),
            None,
            screen,
        );
        let shown = texts(&steps);
        assert!(shown.contains(&status));
        let bar = format!("{:<80}", format!("›   Item {selected}"));
        assert!(shown.contains(&bar.as_str()));
    }
}

#[test]
fn questions_are_asked_in_the_last_row() {
    let config = menu();
    assert_eq!(
        confirm_prompt(&config.items[1], Some((80, 30))),
        vec![
            Draw::MoveTo { column: 0, row: 29 },
            Draw::ClearLine,
            text("Run 'Careful'? [y/N] "),
        ]
    );
    for (size, row) in [(None, 23), (Some((80, 0)), 0), (Some((80, 1)), 0)] {
        assert_eq!(
            return_prompt(size),
            vec![
                Draw::MoveTo { column: 0, row },
                Draw::ClearLine,
                text("Press any key to return to the menu..."),
            ]
        );
    }
}

#[test]
fn pages_are_as_long_as_the_screen_allows() {
    assert_eq!(page_size(None), 16);
    assert_eq!(page_size(Some((80, 0))), 2);
    assert_eq!(page_size(Some((80, 10))), 2);
    assert_eq!(page_size(Some((80, 24))), 16);
    assert_eq!(page_size(Some((80, u16::MAX))), 65_527);
}

#[test]
fn colors_need_a_capable_terminal() {
    assert!(colors_enabled(true, false, Some("xterm")));
    assert!(colors_enabled(true, false, Some("")));
    assert!(!colors_enabled(false, false, Some("xterm")));
    assert!(!colors_enabled(true, true, Some("xterm")));
    assert!(!colors_enabled(true, false, Some("dumb")));
    assert!(!colors_enabled(true, false, None));
}
