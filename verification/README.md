# rwm

A tiling window manager for X11 whose decisions are verified with Verus.

The library (`src/`) keeps the window manager's state — screens,
workspaces, clients, docks, trackers — and turns every event of the X
server into the next state plus the list of requests the server has to
carry out (`request::Request`). Each operation states, over an abstract
model of the state (`structs::AppV`), exactly which state and which
requests it produces, and that it keeps the state's invariant.

- `structs` — the state, its model and its invariant.
- `helper` — lookups, showing, hiding and tiling workspaces.
- `logic` — focus, screens, workspaces, master area, floating, placement.
- `manage` — managing and unmanaging windows, docks.
- `mouse` — dragging and resizing floating windows, following the pointer.
- `events` — one entry point per X event.
- `screens` — screens reported by Xinerama and their workspaces.
- `setup` — start-up and taking over existing windows.
- `laws` — properties that relate several operations.
- `rtde` — the RTDE variant: per-screen status bars, ten workspaces per
  screen, twenty published desktops; its set-up, window management and
  screen updates.
- `rust_wm` — the first, minimal variant: full-size windows, ten
  workspaces per screen; one function per event and `rust_wm_handle` for
  a step of its main loop.

The two variants lay out with a fractional master width; they only tell
the caller when to lay out (`Request::Tile`, or the `bool` the RTDE
functions return).

The program (`app/`) runs the main variant: it opens the display, reads what the library needs from
the server, calls the library, and performs the requests.
