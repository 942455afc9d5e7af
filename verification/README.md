# keyd live graph

Shows what a keyboard does as a live graph: one row for each key, bars for holds
and dots for taps. Events are read from the output of a key monitor on stdin,
one line for each press or release:

    +321 ms<tab>device<tab>id<tab>key down

A sequence ends when no key is held and no event has come for a while, a second
unless `--gap-ms` (`-g`) says otherwise.

- `src/` is the library, verified with Verus: reading events (`event`,
  `evdev_reader`), choosing devices (`kbd`, `dir_watch`), recording (`sequence`,
  `graph`) and what there is to draw (`frame`).
- `app/` is the program around it: the window, stdin and the device files.
- `tests/` runs the library.
