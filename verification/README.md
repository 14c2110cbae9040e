# theme_art_daemon

Cover-art driven desktop theming, with its decisions verified in Verus.

- `src/` is the verified library: choosing the Apple Music player among
  the media players (only Chromium players are ever followed), locating
  and decoding cover art, the colour-popularity histogram and its dominant
  colours, the choice of a primary and an accent colour, the strings that
  update the compositor border and the status bar stylesheet, the
  background service's reaction to track changes, and, for the greeting,
  the playing check, the metadata fields, the removal of `//` comments from
  the JSONC template, its parse into a plain JSON model (`json`), and the
  edits to it: the logo source replaced by the cover art, and the song rows
  inserted just after the title module.
- `app/` runs the commands (`hyprctl`, `playerctl`, `curl`, `fastfetch`,
  `killall`), reads and writes files, and holds the service loop and the
  greeting. It builds one program: installed as `music-fetch`, or run with
  the argument `fetch`, it shows the greeting; otherwise it runs the
  background service.
- `tests/` exercises the library on concrete values.

Decoding and down-scaling of images are done by the `image` crate and JSON
parsing by `serde_json`, behind small trusted wrappers whose contracts state
only what those crates document.

The service uses the cover-art URL that the player reports; it makes no
lookup of higher-resolution covers from an online catalogue.
