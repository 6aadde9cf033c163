# WSLController

A small tray program for Windows that shows the WSL distributions of a machine,
starts and stops them, and keeps them running in the background.

- Closing the window hides it; the program goes on in the tray.
- Leaving the program kills the processes that keep distributions running, and
  leaves the distributions alone.
- Only the menu entry for it runs `wsl.exe --shutdown`.

## Layout

- `src/` is the library, verified with Verus. It decides everything that can be
  decided from plain values: how to read what `wsl.exe -l -v` prints, which
  command to run, what to remember, what to show, which colour each pixel of the
  icon has. Functions named `law_..` state what holds of several of them together.
- `app/` is the program around it: processes, threads, locks, the tray and the
  window. A lock that cannot be had is handed to the library as `None`, and a
  process as a number.
- `tests/` runs the library.

## What is taken on trust

Four functions of the standard library, each with a stated contract:
`char::is_whitespace` and `String::push` in `src/text.rs`, `char::from_u32` and
`String::from_utf8_lossy` in `src/decode.rs`.
