# zed_discord_rpc

Discord Rich Presence for the Zed editor, as a verified library and the
programs around it.

- `src/` is the library, verified with Verus: reading the editor's log
  (which workspace a line names, the worktree store count, line times),
  the daemon's decisions from one poll to the next (`monitor`), the
  workspaces it knows and tracks (`workspace`, `ordering`), language and
  git branch detection, the presence text, the extension's slash command
  and the workspace watcher.
- `app/` holds what touches the machine: the daemon and watcher loops
  (process table, files, Discord IPC) and the extension's entry point. It
  hands the library plain values and acts on what it returns.
- `tests/` runs the library on concrete inputs.
