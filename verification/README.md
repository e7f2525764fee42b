# Equinox

Equinox fetches daily wallpapers from several sources, keeps them in the
pictures directory and applies them on GNOME, KDE Plasma and XFCE.

`src/` is the verified library. Its functions state what they return or change
in `requires` and `ensures`, and Verus proves it:

- `sources/`, `source`, `http`: requests, and what the replies yield
- `storage`, `storage_laws`, `store_laws`, `trim_laws`, `date`, `path`: stored images, their names
  and order
- `config`, `json`: the configuration document
- `schedule`, `queue`, `tasklog`, `history`, `daemon`, `service`, `helper`,
  `supervisor`: the background service
- `applier`, `plasma`, `xfce`, `autostart`, `dbus`: the desktops
- `ui/`: what the window shows and decides
- `text`, `i18n`, `chance`: texts, translation, chance

Laws that relate several functions are public proof functions named `lemma_..`,
each beside the functions it speaks of. What is taken from `serde_json`,
`chrono`, `sha2`, `rand` and `gettext-rs` stands behind small functions whose
doc comments say what is claimed of them.

`app/` is the program around the library: files, D-Bus, HTTP, processes and the
GTK window. `tests/` runs the library.
