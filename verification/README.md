# StickyBoard

Sticky notes for Hyprland: a daemon keeps the notes in SQLite and starts one
floating window per note; a popup captures new notes; a command manages them.

- `src/` is the verified library (Verus): the colour theme read from
  Omarchy's `colors.toml`, colour codes and their lightness, the paths of the
  application's files, decimal numbers, the messages between clients and the
  daemon, the daemon's decisions (cascade, colours, running windows, answers),
  the decisions of the note window, of the capture popup and of the command.
- `app/` is the program around it: sockets, SQLite, Hyprland's socket,
  GTK windows, the command line.
- `tests/` runs the library on concrete values.
- `extras/luminance_check.py` checks, over all 2^24 byte triples, that the
  integer lightness rule of `src/color.rs` decides as single-precision
  arithmetic does.
