# Ronnie

A terminal with tabs, splits, saved profiles, SSH hosts and an SFTP file manager.

`src/` is the verified library: everything the app decides. Its contracts are proved by
Verus, and speak of models (`…Model` types, sequences, maps) of the data.

- Data: `config`, `pane`, `tab`, `color`, `ids`, `names`, `text`, `strings`, `model`, `find`
- Window: `app`, `session`, `startup`, `restore`, `running`, `closing`, `keys`, `popups`, `search`
- Sidebar: `arrange`, `sidebar`, `actions`, `menus`, `profiles`, `editor`, `copies`, `sorting`
- Hosts and settings: `hosts`, `fields`, `settings`, `shortcut`, `menu`, `askpass`
- Files: `sftp`, `walk`, `transfer`, `files`, `browse`, `panel`, `rows`, `format`
- Disk: `dirs`, `paths`, `log`, `shell`

The public proof functions named `law_…` state what holds of several functions together.
`app_laws`, `arrange_laws` and `keeping` hold nothing else: among them, that no operation
breaks the invariant of the tabs and panes.

Functions marked `#[verifier::external_body]` call another crate or the standard library;
their contracts are not proved, and each says in its comment what it relies on.

`app/` is ordinary Rust around the library: the window, the pseudo-terminals, the files on
disk, the SFTP session and the socket of the password helper. It runs on Unix systems.

`tests/` runs the library on concrete values.
