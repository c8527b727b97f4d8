# pinshot

The verified core of a screenshot-pinning desktop tool: images pasted from the
clipboard float above other windows, either all at once (one window each, from
a pool of six) or one at a time in a single viewer that cycles through them.

- `src/deck/` — the deck of pinned images and every mutation the frontend
  asks for (pin, replace, move, zoom, fade, collapse, click-through, close,
  mode switch, cycling), with the deck's invariant.
- `src/deck/render.rs` — the render plan: which pool window shows which image
  where, which windows hide, the view each window gets, and the summary for
  the control panel.
- `src/png.rs` — clipboard RGBA pixels to a PNG data URL, through the `image`
  and `base64` crates.
- `src/geometry.rs`, `src/tray.rs` — window re-anchoring after a resize, and
  the tray menu's entries.
- `src/laws.rs` — properties spanning several operations.
- `app/` — the Tauri shell: commands, windows, panels, clipboard, monitors.
