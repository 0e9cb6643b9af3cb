# wallpaper_core

The decision-making core of the Muivly wallpaper engine, with every
function's behaviour stated as a contract and proved.

- `src/` is the library. Hardware profiles and the tier policy (`caps`),
  the saved session and its text format (`session`), the pipe protocol the
  settings window speaks (`ipc`), playlists, shuffles, scenes, rules, the
  desktop layout, accent colours and the render loop's per-pass decisions
  (`compositor`), what a wallpaper file is and how an animated image is put
  together (`decoder`), power, load, idleness and the applications that
  stop the wallpaper (`power`), and the clip rewriter's arithmetic
  (`optimize`).
- `tests/` runs the library on concrete values.
- `app/` is the command line around it: it reads the hardware, the
  registry, the clock and the session file, and serves the pipe, handing
  the library plain values and acting on what comes back. It builds on
  Windows only.

Numbers the engine keeps as floating point (volumes, speeds, opacities)
are a type parameter of the library, with the reading, comparing and
printing of them passed in as functions.
