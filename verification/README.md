# yabai-id

A macOS menu bar indicator for the yabai window manager: one button per
Mission Control space, the focused one filled; clicking a button focuses its
space through yabai.

- `src/` is the verified library (Verus):
  - `yabai.rs`: the space model and yabai's wire protocol (request framing,
    response reading, socket path), with the framing round-trip law.
  - `socket.rs`: the refresh commands accepted on the refresh socket.
  - `skylight.rs`: turning the window server's per-display records into space
    records (current and active spaces), and C string buffers.
  - `app.rs`: the status item's state, the layout of its buttons and dividers
    in points, its menu, and the delegate's decisions on refresh, toggle and
    click, with the layout laws.
  - `text.rs`: Unicode whitespace trimming, decimal rendering, lossy UTF-8.
- `app/` is the program around it: AppKit views and delegate, the SkyLight FFI,
  the socket server thread and the connection to yabai's socket.
- `tests/` exercises the library on concrete values.
