# herdr_layout

The pane layout logic of a terminal workspace multiplexer, verified with
Verus: the tiled and floating layers of a tab, their arrangements, the
geometry of panes, borders, stack bars and popups, the layout trees of the
control API, fuzzy matching, ANSI preview parsing and the workspace path
claims that route new panes.

## Layout

- `src/` is the verified library. Every function states what it returns or
  changes in its contract, and the properties that span several functions
  are proof functions (`lemma_*`) whose doc comments state them in words.
  - `geometry`, `layout`: rectangles, ratios, the split tree of a layer and
    the operations on it (split, close, swap, resize, arrange, navigate).
  - `tab`: a tab's tiled and floating layers, re-flow and pane moves.
  - `panes`, `pane_borders`, `pane_frame`, `copy_search`: what a frame
    draws for a tab's panes: where each pane and its content go, chrome,
    border lines and titles, stack bars, float shadows, search highlights,
    and which terminals to resize.
  - `popup_size`: popup geometry and the stack preview rows above it.
  - `layout_api`, `layout_apply`: checking, describing and building the
    layout trees the control API exchanges.
  - `creation`, `pinned_path`: where new workspaces and terminals start and
    which workspace claims a directory.
  - `fuzzy`, `preview_ansi`, `text`, `style`: matching, ANSI colour parsing
    and the string helpers they share.
- `tests/` runs the library on concrete cases.
- `app/` is ordinary Rust around the library: the file system and the
  environment, serde and schemars, drawing into a ratatui buffer, floating
  point, and running layout steps against live panes.

Calls into ratatui and std that the library makes stand behind small
trusted wrappers, each with a doc comment saying what its contract assumes.
