# umux

The model and logic of a terminal multiplexer — windows, workspaces, split panes, terminal and
browser surfaces, unread notifications, session snapshots, the command-line request protocol and
the terminal's rendering state — written in Verus, with contracts that state what each function
returns and laws that state what every operation keeps.

- `src/` is the verified library. The application model lives in `model.rs` (with its
  mathematical view in `model_view.rs` and its well-formedness laws in `model_laws.rs`); the
  controller that runs actions against the model and the terminal registry is in
  `controller.rs`, with its laws in `controller_laws.rs`, `controller_coverage.rs` and
  `outcome_laws.rs` (what an action's outcome reports is exactly what it closed and spawned); session
  snapshots are in `snapshot.rs`, `snapshot_view.rs` and `snapshot_laws.rs`; `unread_laws.rs`,
  `target_laws.rs` and `terminal_laws.rs` show that every action keeps the unread bookkeeping
  consistent, the unread target current and the model made of terminals, so that restoring a
  saved session gives back its windows, workspaces, panes, surfaces, selected window, unread
  target and next unread sequence number, with identifiers continuing after the largest one
  restored. Terminal-side
  logic — OSC notification parsing (`notify.rs`, with `stream_laws.rs` showing that cutting
  output into reads anywhere hands the parser the same bytes, and the same notifications when
  each read's completed text is valid UTF-8 and the first closes the sequences it opens), input routing (`input.rs`), rendering
  snapshots (`render.rs`, `grid.rs`, `emulator.rs`), shells, pseudo-terminal bookkeeping and the
  control API's text handling — sits in the remaining modules.
- `tests/` runs the library on concrete values.
- `app/` is the command-line client and the parts that need I/O, serde, clap or the terminal
  emulator crate; it calls the library for every decision.
