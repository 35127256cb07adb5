# wldash

The decisions of a Wayland dashboard, verified with Verus, and the program
around them. The dashboard is an overlay window, just as large as its panels
need it to be.

- `src/` is the library. It holds the state of the dashboard and turns events
  into the next state and a list of operations: the layout of the panels
  (`layout`, `geometry`, `module`), what the keyboard and the pointer mean
  (`keyboard`, `pointer`, `input`), the queue of commands (`cmd`), the monitors
  and their surfaces (`outputs`), the handles that its user then holds
  (`ledger`), one redraw step by step (`redraw`), the wake-up
  from a poll (`wake`), and all of it together (`app`). Proof functions whose
  names begin with `law_` state what holds across several calls.
- `tests/` runs the library.
- `app/` is the program: it talks to the compositor, performs the operations
  and hands the events back. Coordinates and scroll distances are passed as the
  compositor's fixed-point numbers. What a panel shows is up to an
  implementation of the trait `Panel` in `app/panel.rs`; the only one there
  shows the background. The program sets it up for the clock and the calendar,
  and leaves out the launcher, battery, backlight and sound panels.
