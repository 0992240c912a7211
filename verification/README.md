# winpinner_rust

Switches between an application's window and the window the user came from,
on X11, driven over D-Bus.

- `src/` is the verified library (Verus):
  - `text.rs`: characters, whitespace, tokens, lines, trimming, substring search;
  - `number.rs`: decimal `i32` reading and hexadecimal writing;
  - `utils.rs`: the window list of `wmctrl -lx`, the window tree of
    `xwininfo -root -tree`, the active window of `xdotool getactivewindow`;
  - `lib.rs`: `WinPinner`, its cache of application windows and its toggle;
  - `laws.rs`: properties that relate these operations, proved.
- `app/` runs the commands, the D-Bus service and the async plumbing, and
  hands their output to the library.
- `tests/` runs the library on recorded command outputs.
