# aa_media

A terminal media viewer that renders images and videos as ASCII/Unicode
art, with its rendering logic verified in Verus.

Layout:

- `src/` — the verified library.
  - `renderer.rs`: rendering modes (`Ascii`, `Color`, `Braille`, `Kanji`),
    terminal pixel sizes and the aspect-ratio fit, and the exact text of
    each frame.
  - `rounding.rs`: binary64 round-to-nearest of rationals in integer
    arithmetic, used by the aspect-ratio fit.
  - `kanji.rs`: edge direction and density lookup for kanji cells.
  - `frame.rs`: RGB images as plain values and their resampling.
  - `text.rs`: decimal formatting, trimming, `u32` parsing.
  - `url.rs`: classification of the input (local file, YouTube, image URL,
    web page) and the screenshot browser arguments.
  - `video.rs`: probe report parsing and raw frame sizes.
  - `controls.rs`: command-line mode names, key actions, resize decisions
    and the progress bar.
- `tests/` — tests of the library.
- `app/` — the program: command line, terminal I/O, event loops, ffmpeg
  and external tools.
