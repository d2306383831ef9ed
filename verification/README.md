# aovr

A terminal manager for Android runtime resource overlays: it lists the overlays
that `cmd overlay list` reports, grouped by target package, and switches them on
and off through `su -c "cmd overlay enable|disable <name>"`. On hosts that are not
Android it replays a recorded list in memory.

The logic is a Verus library whose behaviour is stated in contracts and proved:

- `src/text.rs` — character-level helpers: trimming, line splitting, digits.
- `src/parsers.rs` — the parser of `cmd overlay list` output and the sorted
  target map it fills.
- `src/shell.rs` — failure detection on finished commands, shell quoting, the
  in-memory replay store and the backend's next step for listing or switching.
- `src/app.rs` — the manager's state and what each user action does to it.
- `src/view.rs` — heights, fitted texts and the detail-list layout.
- `src/events.rs` — keys and mouse events mapped to commands, and their effect.
- `src/keys.rs` — the key-hint tables.

`app/` holds the program around it: the terminal, drawing with ratatui, input
with crossterm, environment lookup and running the root helper.

There is no search bar: `/` does nothing, and every list shows all of its
entries. A cursor move that would take a cursor past the range of its integer
type is ignored; every other key, `q` among them, works in any state.
