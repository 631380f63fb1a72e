# herdr-quotr

Quote an agent's own answer back at it, from a herdr popup: a full-screen picker over the
session transcript where you select ranges, attach a question to each, and send the composed
markdown into the agent's input without submitting it.

## Layout

- `src/` — the library, verified with Verus. Every function carries a `requires`/`ensures`
  contract over spec functions and views, and the properties that span several functions
  are stated and proved as `law_*` proof functions.
  - `text`, `markup` — character-level helpers, positions, inline emphasis spans.
  - `transcript` — turning transcript entries into lines: command unwrapping, block
    classification, marker stripping, turn navigation, slicing and clamping.
  - `ui` — layout arithmetic: display widths, word wrap, the reading column, cards, the
    question box and footer, pipe tables, per-line styling, and what a painted frame holds.
  - `export` — the quote block a pair becomes, and the batch.
  - `herdr` — reading the agent list and the argument lists for the `herdr` command.
  - `bank`, `app`, `keymap`, `config` — the picker's state machine and what each event does.
  - `theme` — the named themes: each one's cast, syntax theme and anchor colors.
- `app/` — the terminal program around the library: reading files and the environment,
  running `herdr`, JSON and TOML decoding, syntax highlighting, blending a theme's anchors
  into a palette, and drawing with ratatui.
- `tests/` — tests of the library's public functions on concrete values.

Display widths come from `unicode-width`; the library names its results and reasons over
those names.
