# lazymenu-cli

`lazymenu-cli` is a config-driven command palette for the terminal. It reads
`menu.toml` from the current directory, or else `/etc/lazymenu-cli/menu.toml`,
lists the commands that the file describes, finds them by fuzzy search or by a
one-character binding, and runs them.

The decisions are in a library that is verified with [Verus](https://github.com/verus-lang/verus);
the program around it only does what the library asks for.

| Module | What it decides |
| --- | --- |
| `config`, `menu`, `binding`, `color`, `identity` | which configuration files are accepted, and which menu they describe |
| `search`, `order`, `recent` | how well a query fits an item, and in which order items are listed |
| `session`, `keys` | what each key, each answer and each finished command leads to |
| `render` | what is drawn |
| `command`, `terminal`, `options` | what is started, how the terminal is set up and restored, what the command line asks for |
| `text`, `error` | text as sequences of characters, and how errors are reported |

`app/` is the program: TOML, files, the terminal, signals and child processes.
`tests/` runs the library.

## What is proved

Every function of the library has a contract that says what it returns for every
input. Beyond that, among others:

- a query finds an item exactly when each of its words occurs, in order, in one
  of the fields that are searched;
- there is one way to list the items: favorites, then recently used commands,
  then the rest by group, or the best match first in a search;
- a history that was stored is read back as it was;
- whatever is drawn stays on the screen, the selected item is visible, and
  nothing is styled without colors;
- a command that has to be confirmed runs only after `y`, a dry run leaves the
  history alone, and Ctrl+C ends the program wherever a key is waited for.

What is taken on trust is in `text`: the contracts of six functions of the
standard library (`char::is_whitespace`, `char::is_control`,
`char::is_alphanumeric`, `str::to_lowercase`, `String::push`, `String::pop`).
