# jobsdone

The logic of a keyboard-first task manager for the terminal, written in Verus
and proved against its contracts: the task model and every command on it with
the entry that takes it back, the writes that carry one model to another, repeat
rules and the copies they make, the views of a day, the backlog and the review,
the dictionary and the settings, the command line and the text an answer is
read out as, the key bindings, the date card and the Hyprland window rule.

## Layout

- `src/domain/` the model (`model.rs`), the commands and their inverses
  (`command.rs`), dates (`time.rs`, `date.rs`), repeat rules (`rule.rs`),
  settings, the dictionary, fuzzy search, the views and the title search,
  what the program does on its own (`system.rs`) and the laws that span
  several functions (`laws.rs`): every command a user may ask for is taken back
  by the undo entry it earns, and keeps each place numbered `0..n`.
- `src/cli/` reading a command line into a plan or a request for the service,
  and reading the service's answer out as text (`reading.rs`).
- `src/input.rs` and `src/input/` the key bindings of every screen.
- `src/desktop.rs`, `src/launch.rs` the window rule and the locale.
- `src/text.rs` text as characters: trimming, splitting, whole numbers.
- `app/main.rs` the process around the library: arguments, the environment,
  files and `hyprctl`.
- `tests/` the library's tests, run against the compiled crate.

Outside crates are called where the logic needs them (jiff for dates,
unicode-normalization for the dictionary), each behind a small trusted wrapper
whose contract says what the crate's documentation says of the call.
