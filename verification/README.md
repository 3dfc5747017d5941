# terminal_plugin

A terminal for Sicompass: a scrollback of commands and their output, and a
dashboard for programs that take over the screen, over one shell on a
pseudo-terminal.

`src/` is the library. It decides what happens and is verified with Verus:

- `parser`, `terminal`, `sgr`, `emulator`: bytes to actions (with `vte`), and
  actions to a grid of cells; `terminal_laws` states what always holds of it.
- `altscreen_detect`, `interactive_detect`, `escape`: noticing programs that
  take over the screen.
- `keys`, `dashboard`: key presses as bytes, and the data of a frame.
- `output`, `command`, `path`, `text`: output as plain text, `cd` and `~`, file
  paths for Unix and Windows, and strings; `path_laws` states what holds of
  paths.
- `shell`, `sys`, `localize`: how a shell is started, who the user is, and the
  strings the user sees.
- `provider_model`, `provider`, `provider_laws`: the terminal as a whole.

`app/` is the application around it: the shell process, files, the environment
and the Sicompass interfaces. `tests/` runs the library.
