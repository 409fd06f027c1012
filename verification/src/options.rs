//! The command line, and where files are looked for.
use crate::command::command_display;
use crate::error;
use crate::error::config_error;
use crate::menu::MenuItem;
use crate::text;
use crate::text::{joined, same_text};
use vstd::prelude::*;

verus! {

/// The exit status where an error is reported.
pub const EXIT_ERROR: i32 = 2;

/// The menu that is used where the project has none.
pub const SYSTEM_CONFIG_PATH: &'static str = "/etc/lazymenu-cli/menu.toml";

/// What the command line asks for.
#[derive(Debug, PartialEq, Eq)]
pub struct Options {
    pub config_path: Option<String>,
    pub dry_run: bool,
    pub print_items: bool,
}

/// What is to be done.
#[derive(Debug, PartialEq, Eq)]
pub enum Request {
    /// Print how the program is used.
    Help,
    /// Open the menu, or list its items.
    Run(Options),
}

/// What a command line amounts to.
pub enum Meaning {
    Help,
    Run { config_path: Option<Seq<char>>, dry_run: bool, print_items: bool },
    Mistake(Seq<char>),
}

/// What the arguments from `at` on amount to, given what the ones before them
/// asked for. The first request for help and the first mistake decide.
pub open spec fn meaning_from(
    arguments: Seq<Seq<char>>,
    at: int,
    config_path: Option<Seq<char>>,
    dry_run: bool,
    print_items: bool,
) -> Meaning
    decreases arguments.len() - at,
{
    if at < 0 || at >= arguments.len() {
        Meaning::Run { config_path, dry_run, print_items }
    } else if arguments[at] == "--config"@ {
        if at + 1 < arguments.len() {
            meaning_from(arguments, at + 2, Some(arguments[at + 1]), dry_run, print_items)
        } else {
            Meaning::Mistake("--config needs a path"@)
        }
    } else if arguments[at] == "--dry-run"@ {
        meaning_from(arguments, at + 1, config_path, true, print_items)
    } else if arguments[at] == "--print"@ {
        meaning_from(arguments, at + 1, config_path, dry_run, true)
    } else if arguments[at] == "-h"@ || arguments[at] == "--help"@ {
        Meaning::Help
    } else {
        Meaning::Mistake("unknown option: "@ + arguments[at])
    }
}

/// What a command line amounts to.
pub open spec fn meaning(arguments: Seq<Seq<char>>) -> Meaning {
    meaning_from(arguments, 0, None, false, false)
}

/// Reads the command line, without the program's name in front.
pub fn parse_options(arguments: &Vec<String>) -> (parsed: Result<Request, String>)
    ensures
        match meaning(text::texts(arguments@)) {
            Meaning::Help => parsed == Ok::<Request, String>(Request::Help),
            Meaning::Run { config_path, dry_run, print_items } => parsed matches Ok(
                Request::Run(options),
            ) && text::optional_text(options.config_path) == config_path && options.dry_run
                == dry_run && options.print_items == print_items,
            Meaning::Mistake(message) => parsed matches Err(report) && report@ == error::reported(
                message,
            ),
        },
{
    let mut options = Options { config_path: None, dry_run: false, print_items: false };
    let mut next: usize = 0;
    let ghost all = text::texts(arguments@);
    while next < arguments.len()
        invariant
            next <= arguments@.len(),
            all == text::texts(arguments@),
            meaning(all) == meaning_from(
                all,
                next as int,
                text::optional_text(options.config_path),
                options.dry_run,
                options.print_items,
            ),
        decreases arguments@.len() - next,
    {
        assert(all[next as int] == arguments@[next as int]@);
        let argument = arguments[next].as_str();
        if same_text(argument, "--config") {
            if next + 1 >= arguments.len() {
                return Err(config_error("--config needs a path"));
            }
            assert(all[next + 1] == arguments@[next + 1]@);
            options.config_path = Some(arguments[next + 1].clone());
            next = next + 2;
        } else if same_text(argument, "--dry-run") {
            options.dry_run = true;
            next = next + 1;
        } else if same_text(argument, "--print") {
            options.print_items = true;
            next = next + 1;
        } else if same_text(argument, "-h") || same_text(argument, "--help") {
            return Ok(Request::Help);
        } else {
            return Err(config_error(joined("unknown option: ", argument).as_str()));
        }
    }
    Ok(Request::Run(options))
}

/// How the program is used.
pub open spec fn usage_text() -> Seq<char> {
    "Usage: lazymenu-cli [options]\n\nOptions:\n  --config PATH  TOML config file (default: ./menu.toml, then /etc/lazymenu-cli/menu.toml)\n  --dry-run      Show commands instead of executing them\n  --print        List configured items and exit\n  -h, --help     Show this help"@
}

/// How the program is used.
pub fn usage() -> (shown: String)
    ensures
        shown@ == usage_text(),
{
    "Usage: lazymenu-cli [options]\n\nOptions:\n  --config PATH  TOML config file (default: ./menu.toml, then /etc/lazymenu-cli/menu.toml)\n  --dry-run      Show commands instead of executing them\n  --print        List configured items and exit\n  -h, --help     Show this help".to_owned()
}

/// The line that lists an item for scripts: its binding or `-`, its label and its
/// command, with tabs between them.
pub fn listing_line(item: &MenuItem) -> (line: String)
    ensures
        line@ == (match item.key {
            Some(key) => key@,
            None => "-"@,
        }) + "\t"@ + item.label@ + "\t"@ + item.command.display(),
{
    let mut line = match &item.key {
        Some(key) => key.clone(),
        None => "-".to_owned(),
    };
    line.append("\t");
    line.append(item.label.as_str());
    line.append("\t");
    line.append(command_display(&item.command).as_str());
    line
}

/// A path and whether there is a file.
#[derive(Debug)]
pub struct Place<P> {
    pub path: P,
    pub is_file: bool,
}

/// The configuration file to read: the one that was asked for, else the
/// project's, else the system's. `system_shown` is how the system's is named where
/// there is none of them.
pub fn resolve_config_path<P>(
    explicit_path: Option<P>,
    local: Place<P>,
    system: Place<P>,
    system_shown: &str,
) -> (resolved: Result<P, String>)
    ensures
        match explicit_path {
            Some(path) => resolved == Ok::<P, String>(path),
            None => if local.is_file {
                resolved == Ok::<P, String>(local.path)
            } else if system.is_file {
                resolved == Ok::<P, String>(system.path)
            } else {
                resolved matches Err(message) && message@ == error::reported(
                    "cannot find menu.toml in the current directory or "@ + system_shown@,
                )
            },
        },
{
    if let Some(path) = explicit_path {
        return Ok(path);
    }
    if local.is_file {
        return Ok(local.path);
    }
    if system.is_file {
        return Ok(system.path);
    }
    Err(
        config_error(
            joined("cannot find menu.toml in the current directory or ", system_shown).as_str(),
        ),
    )
}

/// The directory for state: the one that is configured where it is an absolute
/// path, else the usual one below the home directory, if there is one.
pub fn xdg_state_home<P>(configured: Option<P>, is_absolute: bool, below_home: Option<P>) -> (root:
    Option<P>)
    ensures
        root == (if configured is Some && is_absolute {
            configured
        } else {
            below_home
        }),
{
    match configured {
        Some(path) if is_absolute => Some(path),
        _ => below_home,
    }
}

proof fn lemma_meaning_goes_on(
    before: Seq<Seq<char>>,
    behind: Seq<Seq<char>>,
    at: int,
    config_path: Option<Seq<char>>,
    dry_run: bool,
    print_items: bool,
)
    requires
        0 <= at <= before.len(),
        meaning_from(before, at, config_path, dry_run, print_items) is Run,
    ensures
        match meaning_from(before, at, config_path, dry_run, print_items) {
            Meaning::Run { config_path: path, dry_run: dry, print_items: print } => meaning_from(
                before + behind,
                at,
                config_path,
                dry_run,
                print_items,
            ) == meaning_from(before + behind, before.len() as int, path, dry, print),
            _ => true,
        },
    decreases before.len() - at,
{
    let all = before + behind;
    if at < before.len() {
        assert(all[at] == before[at]);
        if before[at] == "--config"@ {
            assert(all[at + 1] == before[at + 1]);
            lemma_meaning_goes_on(
                before,
                behind,
                at + 2,
                Some(before[at + 1]),
                dry_run,
                print_items,
            );
        } else if before[at] == "--dry-run"@ {
            lemma_meaning_goes_on(before, behind, at + 1, config_path, true, print_items);
        } else if before[at] == "--print"@ {
            lemma_meaning_goes_on(before, behind, at + 1, config_path, dry_run, true);
        }
    }
}

proof fn lemma_options_differ()
    ensures
        "--config"@ != "--dry-run"@,
        "--config"@ != "--print"@,
        "--config"@ != "-h"@,
        "--config"@ != "--help"@,
        "--dry-run"@ != "--print"@,
        "--dry-run"@ != "-h"@,
        "--dry-run"@ != "--help"@,
        "--print"@ != "-h"@,
        "--print"@ != "--help"@,
{
    reveal_strlit("--config");
    reveal_strlit("--dry-run");
    reveal_strlit("--print");
    reveal_strlit("-h");
    reveal_strlit("--help");
    assert("--config"@.len() == 8);
    assert("--dry-run"@.len() == 9);
    assert("--print"@.len() == 7);
    assert("-h"@.len() == 2);
    assert("--help"@.len() == 6);
}

/// Without arguments the menu is opened with nothing asked for. Each option behind
/// others adds what it asks for and keeps the rest; the last path counts.
pub proof fn options_add_up(
    before: Seq<Seq<char>>,
    config_path: Option<Seq<char>>,
    dry_run: bool,
    print_items: bool,
    path: Seq<char>,
)
    requires
        meaning(before) == (Meaning::Run { config_path, dry_run, print_items }),
    ensures
        meaning(Seq::empty()) == (Meaning::Run {
            config_path: None,
            dry_run: false,
            print_items: false,
        }),
        meaning(before.push("--dry-run"@)) == (Meaning::Run {
            config_path,
            dry_run: true,
            print_items,
        }),
        meaning(before.push("--print"@)) == (Meaning::Run {
            config_path,
            dry_run,
            print_items: true,
        }),
        meaning(before.push("--config"@).push(path)) == (Meaning::Run {
            config_path: Some(path),
            dry_run,
            print_items,
        }),
{
    reveal_with_fuel(meaning_from, 2);
    lemma_options_differ();
    let end = before.len() as int;
    let dry = seq!["--dry-run"@];
    lemma_meaning_goes_on(before, dry, 0, None, false, false);
    assert(before.push("--dry-run"@) == before + dry);
    assert((before + dry)[end] == "--dry-run"@);
    let print = seq!["--print"@];
    lemma_meaning_goes_on(before, print, 0, None, false, false);
    assert(before.push("--print"@) == before + print);
    assert((before + print)[end] == "--print"@);
    let config = seq!["--config"@, path];
    lemma_meaning_goes_on(before, config, 0, None, false, false);
    assert(before.push("--config"@).push(path) == before + config);
    assert((before + config)[end] == "--config"@);
    assert((before + config)[end + 1] == path);
}

/// A request for help decides, whatever comes behind it.
pub proof fn help_decides(before: Seq<Seq<char>>, help: Seq<char>, behind: Seq<Seq<char>>)
    requires
        meaning(before) is Run,
        help == "-h"@ || help == "--help"@,
    ensures
        meaning(before.push(help) + behind) == Meaning::Help,
{
    lemma_options_differ();
    let rest = seq![help] + behind;
    lemma_meaning_goes_on(before, rest, 0, None, false, false);
    assert(before.push(help) + behind == before + rest);
    assert((before + rest)[before.len() as int] == help);
}

/// An argument that is no option is named as a mistake, whatever comes behind it; and
/// so is `--config` without a path behind it.
pub proof fn mistakes_decide(before: Seq<Seq<char>>, argument: Seq<char>, behind: Seq<Seq<char>>)
    requires
        meaning(before) is Run,
        argument != "--config"@,
        argument != "--dry-run"@,
        argument != "--print"@,
        argument != "-h"@,
        argument != "--help"@,
    ensures
        meaning(before.push(argument) + behind) == Meaning::Mistake("unknown option: "@ + argument),
        meaning(before.push("--config"@)) == Meaning::Mistake("--config needs a path"@),
{
    let rest = seq![argument] + behind;
    lemma_meaning_goes_on(before, rest, 0, None, false, false);
    assert(before.push(argument) + behind == before + rest);
    assert((before + rest)[before.len() as int] == argument);
    let config = seq!["--config"@];
    lemma_meaning_goes_on(before, config, 0, None, false, false);
    assert(before.push("--config"@) == before + config);
    assert((before + config)[before.len() as int] == "--config"@);
}

/// The usage shows, line by line, how the program is called and then every option with
/// what it does.
pub proof fn the_usage_has_a_line_for_every_option()
    ensures
        usage_text() == "Usage: lazymenu-cli [options]"@ + "\n\nOptions:"@
            + "\n  --config PATH  TOML config file (default: ./menu.toml, then /etc/lazymenu-cli/menu.toml)"@
            + "\n  --dry-run      Show commands instead of executing them"@
            + "\n  --print        List configured items and exit"@
            + "\n  -h, --help     Show this help"@,
{
    reveal_strlit(
        "Usage: lazymenu-cli [options]\n\nOptions:\n  --config PATH  TOML config file (default: ./menu.toml, then /etc/lazymenu-cli/menu.toml)\n  --dry-run      Show commands instead of executing them\n  --print        List configured items and exit\n  -h, --help     Show this help",
    );
    reveal_strlit("Usage: lazymenu-cli [options]");
    reveal_strlit("\n\nOptions:");
    reveal_strlit(
        "\n  --config PATH  TOML config file (default: ./menu.toml, then /etc/lazymenu-cli/menu.toml)",
    );
    reveal_strlit("\n  --dry-run      Show commands instead of executing them");
    reveal_strlit("\n  --print        List configured items and exit");
    reveal_strlit("\n  -h, --help     Show this help");
}

} // verus!
