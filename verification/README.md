# hmux

Terminals that keep running whether or not you are looking at them: a console
multiplexer, a daemon that owns the shells, and a window that attaches to it.

`src/` is the library, written in Verus: its functions are verified against
their contracts. What is believed of `vte`, `unicode-width` and the standard
library is stated at a handful of wrappers, each with a doc comment that says
what it claims. The library holds the terminal emulator, the compositor and the
differential renderer, the input router, the rules of the daemon and of the
window, and the parsing around the system calls. It does no input or output:
what has to be done outside is handed back to the caller as a value.

| Module | What it is |
| --- | --- |
| `grid` | the emulator; `grid::model` says what each sequence does, `grid::laws` what holds throughout |
| `vt`, `width` | the escape-sequence parser (`vte`) and the width tables (`unicode-width`) |
| `pane`, `layout`, `render`, `input`, `mux` | the console front end |
| `daemon`, `proto` | the daemon and what it and a window say to each other |
| `sessions`, `persist`, `browser`, `shells`, `update`, `gui` | the window |
| `activity`, `cwd`, `clipboard`, `pty`, `term` | what is worked out around calls into the system |
| `text`, `utf8`, `utf16`, `windows_path` | vocabulary |

Promises that span several functions stand as `law_*` proof functions beside the
code they are about.

`app/` is ordinary Rust around the library: pipes, ptys, threads, the console,
the session file and the window's commands.

`tests/` runs the library on concrete values, with the real `vte` and
`unicode-width` linked.
