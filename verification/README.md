# psi-cli

An interactive terminal UI for filesystem-based workflows. It watches directories, shows the files
in them as one timeline, edits files in place, imports files, and runs scriptlets on events.

The library under `src/` decides everything; Verus proves that it does what its contracts say.
The program under `app/` does what only a program can: it reads arguments, touches files, watches
directories, runs scripts and draws on the terminal.

## The library

| Module | What it holds |
|--------|---------------|
| `text`, `wrap` | text measured in bytes, and where it lands when it is wrapped by words |
| `order`, `clock`, `paths`, `size` | sorting, moments, paths as text, file sizes |
| `models`, `events`, `state` | the records, what comes in and what is asked for, the interface |
| `keys` | every event of the terminal, in whatever mode |
| `normal`, `submit` | typing, history, directories; submitting a message |
| `select`, `edit` | choosing a message; editing its file |
| `completion`, `prompt` | typing a path: to import a file, or to add a directory |
| `timeline`, `watcher` | files as messages; what is known of the watched files |
| `style`, `area`, `chat`, `inputbox`, `promptbox`, `screen` | the screen as plain values |
| `scriptlet`, `session`, `cli` | the environment of scriptlets, and setting up a session |

A key either is dealt with at once or asks for work on the file system (`Step::Ask`). The program
does that work and answers through the method that the request names, until the key is dealt with.

Paths are text. Where a function cuts a text at a cursor, the cursor has to lie between two
characters; `accepts`, `accepts_event`, `drawable` and `prompt_drawable` tell whether it does.

## Keys

While a message is typed: Enter or Ctrl+Enter submits, Ctrl+J puts in a line break, Ctrl+↑ and
Ctrl+↓ go through the history, Tab chooses messages, Ctrl+F imports a file, Alt+I and Alt+O add an
input or output directory, Ctrl+R and Ctrl+O rotate the active ones, PageUp and PageDown scroll ten
lines, ↑ and ↓ one, End goes to the end of the log, Ctrl+C quits. With nothing typed, `j` and `k`
scroll the log as well.

While a message is chosen: the arrows, `j`, `k`, PageUp and PageDown move, Enter edits the file,
Ctrl+D deletes it, Esc goes back. While a file is edited: Ctrl+S saves, Enter saves and closes, Esc
closes without saving, and the arrows and page keys scroll. A file that is gone is not written, and
stays open. While a path is typed: Tab goes through the completions, Enter takes the
path, Esc goes back; `~/` stands for the home directory among the completions and in an import.
