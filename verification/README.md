# fyler_app

The decisions of a file manager whose tree is edited as text: what a save would
do and what a user is asked before it, how it is undone, how files are moved
between panes, which directories are loaded, what is kept for the next start.

Each decision is a function from plain values to plain values, with a contract
that Verus proves.

- `src/` is the library. `tree`, `baseline`, `grammar` and `listing` say what a
  tree and its text are. `plan`, `save_flow`, `save_state`, `save_result` and
  `save_laws` are about saving; `undo`, `undo_journal`, `manifest_reader`,
  `undo_format` and `undo_slots` about undoing; `transfer_flow`, `import_flow`,
  `extract_flow` and `drag_flow` about files that come and go. `desk`, `pane` and
  `pane_book` are about what is shown side by side, `loading`, `changes`, `picker`
  and `git_refresh` about work in the background, and `config`, `config_laws`,
  `session`, `single` and `startup` about what outlives the program. `commands`,
  `tree_commands`, `directory_commands`, `folding`, `transfer_request` and `gates` say
  what becomes of a user's wishes, and `notices`, `warnings`, `report` and `feedback`
  what a user is told.
- The laws that hold of all of it are the public proof functions; their names say
  what they state.
- `toml_doc`, `text`, `fs_path` and `queue_stats` hold what is believed of the
  `toml` crate and of the standard library.
- `app/` reads and writes files, sends feedback and runs a console. The window and
  the editor engine are not part of it.
- `tests/` runs the library on concrete values.
