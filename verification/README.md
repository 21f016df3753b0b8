# gestalt

The verified core of Gestalt, a desktop workspace for running and
coordinating many terminal sessions, written in Verus.

`src/` holds the logic, each function with a contract that Verus proves:

- workspace state: sessions, path groups, selection, auxiliary panel docking
  (`state`, `workspace`, `panel_dock`, `app_state`), notes and snippets
  (`knowledge`, `notes`), the insert command library (`commands`,
  `insert_mode`, `prompt_text`);
- terminal text: input line capture, scrollback, history merging and
  snapshots (`terminal_text`), keyboard encoding (`terminal_input`,
  `shortcuts`), session start order (`startup`), the terminal resize poll
  (`resize_poll`);
- the native terminal: the emulator and its frame projection (`emulator`,
  `emulator_projection`, `terminal_model`, `native_frame`, `wrap_policy`),
  the software rasterizer and its tile cache (`raster`, `terminal_raster`),
  view scrolling (`scroll`);
- repository views: the commit graph (`commit_graph`), the Git refresh
  coordinator and its scheduling (`git_refresh`), run review keys (`review`), file browser rules
  (`file_browser`), panel helpers (`panels`), autosave decisions
  (`autosave`).

Outside crates are reached through small trusted wrappers whose contracts
say what the crate's documentation promises.

`app/` is the runtime around the library: PTY processes, threads, the file
system, the clipboard, serialized records, floating-point sizing and the
Git refresh loop.
`tests/` runs the library against concrete values.
