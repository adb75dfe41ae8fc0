# krunner_zed

A KRunner runner that lists the recent workspaces of the installed Zed editors
(stable, preview, nightly and dev channels) and opens the chosen one.

- `src/` is the library, verified with Verus: desktop entries and installations
  (`desktop.rs`, `channel.rs`), recent workspaces (`projects.rs`), query matching
  (`matching.rs`), opening a match (`launch.rs`), and the text and path helpers they
  are stated over (`text.rs`, `paths.rs`).
- `app/` is the D-Bus service: it reads the XDG directories, desktop files and Zed's
  SQLite database, serves `org.kde.krunner1`, and starts `kstart` or the editor.
- `tests/` runs the library on concrete values.
