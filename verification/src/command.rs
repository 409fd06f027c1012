//! The command of a menu item: how it is shown, what is started for it and which
//! exit status it counts as.
use crate::text;
use crate::text::{join_texts, joined};
use vstd::prelude::*;

verus! {

/// The exit status of a command that could not be started.
pub const EXIT_COMMAND_NOT_FOUND: i32 = 127;

/// The exit status of whatever Ctrl+C ended.
pub const EXIT_INTERRUPTED: i32 = 130;

/// A command: a script for the platform's shell, or a program and its arguments.
#[derive(Debug, PartialEq, Eq)]
pub enum CommandSpec {
    Shell(String),
    Direct(Vec<String>),
}

impl CommandSpec {
    /// The command as one line of text.
    pub open spec fn display(self) -> Seq<char> {
        match self {
            CommandSpec::Shell(script) => script@,
            CommandSpec::Direct(parts) => text::join(text::texts(parts@), " "@),
        }
    }

    /// There is a program to start.
    pub open spec fn startable(self) -> bool {
        match self {
            CommandSpec::Shell(_) => true,
            CommandSpec::Direct(parts) => parts@.len() > 0,
        }
    }

    /// The program to start, on Windows or elsewhere.
    pub open spec fn program(self, windows: bool) -> Seq<char> {
        match self {
            CommandSpec::Shell(_) => if windows {
                "cmd"@
            } else {
                "sh"@
            },
            CommandSpec::Direct(parts) => parts@[0]@,
        }
    }

    /// The arguments that the program gets, on Windows or elsewhere.
    pub open spec fn arguments(self, windows: bool) -> Seq<Seq<char>> {
        match self {
            CommandSpec::Shell(script) => if windows {
                seq!["/C"@, script@]
            } else {
                seq!["-c"@, script@]
            },
            CommandSpec::Direct(parts) => text::texts(parts@.skip(1)),
        }
    }
}

/// The command as one line of text: the script, or the program and its arguments
/// with spaces between them.
pub fn command_display(command: &CommandSpec) -> (shown: String)
    ensures
        shown@ == command.display(),
{
    match command {
        CommandSpec::Shell(script) => script.clone(),
        CommandSpec::Direct(parts) => join_texts(parts, " "),
    }
}

/// What has to be done to run a command.
#[derive(Debug, PartialEq, Eq)]
pub enum Launch {
    /// Print this line and start nothing.
    Announce(String),
    /// Print the line, then start the program.
    Start { line: String, program: String, arguments: Vec<String> },
}

/// Decides what running `command` amounts to.
pub fn run_command(command: &CommandSpec, dry_run: bool, windows: bool) -> (launch: Launch)
    requires
        dry_run || command.startable(),
    ensures
        dry_run ==> (launch matches Launch::Announce(line) && line@ == "would run: "@
            + command.display()),
        !dry_run ==> (launch matches Launch::Start { line, program, arguments } && line@
            == "\nRunning: "@ + command.display() + "\n"@ && program@ == command.program(windows)
            && text::texts(arguments@) == command.arguments(windows)),
        !dry_run ==> match (*command, launch) {
            (CommandSpec::Direct(parts), Launch::Start { program, arguments, .. }) => {
                &&& program@ == parts@[0]@
                &&& arguments@.len() == parts@.len() - 1
                &&& forall|i: int|
                    0 <= i < arguments@.len() ==> (#[trigger] arguments@[i])@ == parts@[i + 1]@
            },
            (CommandSpec::Shell(script), Launch::Start { program, arguments, .. }) => {
                &&& arguments@.len() == 2
                &&& arguments@[1]@ == script@
                &&& windows ==> program@ == "cmd"@ && arguments@[0]@ == "/C"@
                &&& !windows ==> program@ == "sh"@ && arguments@[0]@ == "-c"@
            },
            _ => false,
        },
{
    let shown = command_display(command);
    if dry_run {
        return Launch::Announce(joined("would run: ", shown.as_str()));
    }
    let line = joined(joined("\nRunning: ", shown.as_str()).as_str(), "\n");
    let mut arguments: Vec<String> = Vec::new();
    match command {
        CommandSpec::Direct(parts) => {
            let mut next: usize = 1;
            while next < parts.len()
                invariant
                    1 <= next <= parts@.len(),
                    arguments@ == parts@.subrange(1, next as int),
                decreases parts@.len() - next,
            {
                arguments.push(parts[next].clone());
                next = next + 1;
            }
            assert(arguments@ == parts@.skip(1));
            Launch::Start { line, program: parts[0].clone(), arguments }
        },
        CommandSpec::Shell(script) => {
            let (program, flag) = if windows {
                ("cmd".to_owned(), "/C".to_owned())
            } else {
                ("sh".to_owned(), "-c".to_owned())
            };
            arguments.push(flag);
            arguments.push(script.clone());
            assert(text::texts(arguments@) == command.arguments(windows));
            Launch::Start { line, program, arguments }
        },
    }
}

/// How running a command ended.
#[derive(Debug, PartialEq, Eq, Clone, Copy)]
pub enum CommandEnd {
    /// It was announced only.
    Announced,
    /// It could not be started.
    NotStarted,
    /// It exited with this code.
    Exited(i32),
    /// A signal ended it.
    Killed,
}

/// The exit status that a command counts as; 0 where it was announced only,
/// whatever else happened. `interrupted` says whether Ctrl+C
/// was seen while it ran.
pub fn exit_status(end: CommandEnd, interrupted: bool) -> (status: i32)
    ensures
        status == (match end {
            CommandEnd::Announced => 0,
            CommandEnd::NotStarted => EXIT_COMMAND_NOT_FOUND,
            CommandEnd::Exited(code) => code,
            CommandEnd::Killed => if interrupted {
                EXIT_INTERRUPTED
            } else {
                1
            },
        }),
{
    match end {
        CommandEnd::Announced => 0,
        CommandEnd::NotStarted => EXIT_COMMAND_NOT_FOUND,
        CommandEnd::Exited(code) => code,
        CommandEnd::Killed => if interrupted {
            EXIT_INTERRUPTED
        } else {
            1
        },
    }
}

/// A direct command names its program first, and the program gets the other parts as
/// its arguments: as many as there are, each as it stands, whatever is in it. The
/// platform makes no difference.
pub proof fn arguments_are_passed_as_they_stand(command: CommandSpec, windows: bool)
    requires
        command is Direct,
        command->Direct_0@.len() > 0,
    ensures
        command.startable(),
        command.program(windows) == command->Direct_0@[0]@,
        command.arguments(windows).len() == command->Direct_0@.len() - 1,
        forall|i: int|
            0 <= i < command->Direct_0@.len() - 1 ==> #[trigger] command.arguments(windows)[i]
                == command->Direct_0@[i + 1]@,
{
}

/// A script goes to the shell of the platform as one argument, as it stands.
pub proof fn a_script_is_one_argument_of_the_shell(command: CommandSpec, windows: bool)
    requires
        command is Shell,
    ensures
        command.startable(),
        command.arguments(windows).len() == 2,
        command.arguments(windows)[1] == command->Shell_0@,
        windows ==> command.program(windows) == "cmd"@ && command.arguments(windows)[0] == "/C"@,
        !windows ==> command.program(windows) == "sh"@ && command.arguments(windows)[0] == "-c"@,
{
}

/// A script is shown as it is, and so is a program without arguments. The parts of a
/// longer direct command are shown one after the other with a space between them.
pub proof fn commands_are_shown_with_their_parts(
    command: CommandSpec,
    beginning: CommandSpec,
    last: Seq<char>,
)
    ensures
        command is Shell ==> command.display() == command->Shell_0@,
        command is Direct && command->Direct_0@.len() == 1 ==> command.display()
            == command->Direct_0@[0]@,
        command is Direct && beginning is Direct && beginning->Direct_0@.len() > 0
            && command->Direct_0@.len() == beginning->Direct_0@.len() + 1
            && command->Direct_0@.drop_last() == beginning->Direct_0@
            && command->Direct_0@.last()@ == last ==> command.display() == beginning.display()
            + " "@ + last,
{
    if command is Direct && beginning is Direct {
        let parts = command->Direct_0@;
        if parts.len() > 0 {
            assert(text::texts(parts).drop_last() == text::texts(parts.drop_last()));
        }
    }
}

} // verus!
