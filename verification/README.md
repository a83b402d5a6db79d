# Termfold

Termfold is a small terminal multiplexer for Linux: persistent local sessions with
tabs, panes and a status bar, driven by a prefix key.

## Layout

- `src/` is the library, written in Verus. Its functions state in
  `requires`/`ensures` what they return or change, and Verus proves it; the calls
  into `std`, `toml` and `unicode-width` stand behind trusted items whose contracts
  say what those crates document.
  - `session.rs`: sessions, tabs and the split layout of panes.
  - `terminal.rs`: the screen state of a pane and what control sequences do to it.
  - `input.rs`: keystrokes and mouse reports turned into actions.
  - `render.rs`, `paint.rs`, `status.rs`: drawing screens and the status line.
  - `ipc.rs`: the framed messages between clients and the session server.
  - `config.rs`, `document.rs`, `profile.rs`: the configuration file.
  - `dispatch.rs`: what an action or a message from a client does to the
    session and the client, as work left to the server's loop.
  - `command.rs`, `client.rs`, `runtime.rs`, `server.rs`, `outer.rs`: the
    decisions of the command line, the client, the runtime directory, the server
    and the outer terminal.
- `tests/` exercises the library with concrete values.
- `app/` is the `termfold` program: the command line, files, sockets,
  pseudo-terminals and the server's event loop, which performs the work that the
  library's decisions hand it.

This build has no file viewer and keeps no scrollback: opening an entry in the
viewer answers that the viewer is not available, the scroll view has nothing to
scroll or search, and saving the scrollback is refused.

The `toml` crate reads the configuration file, `unicode-width` measures text, `vte`
splits pane output into control sequences, and `libc` reaches the terminal and
pseudo-terminals.
