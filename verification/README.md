# sruler

A Wayland screen ruler. It freezes a screenshot of the output under the cursor and
measures the uniformly coloured region around the cursor, scanning left, right, up and
down until the colour differs by more than a threshold.

- `src/` is the verified library:
  - `frame.rs`: the frozen RGBA8 screenshot and pixel access;
  - `measure.rs`: colour distance, the four scans, `measure`, and the laws about them
    (a measurement is determined, a higher threshold never shrinks it, the region is
    uniform and lies inside the frame);
  - `session.rs`: the ruler's interactive state (cursor moves, wheel steps of the
    threshold, Escape, click-to-copy) and the arm caps;
  - `probe.rs`: deciding which output the cursor is on from Wayland events;
  - `font.rs`: the 5x7 bitmap glyphs and line splitting for the tooltip.
- `app/` is the program around it: Wayland connection, `grim`, image decoding, the
  egui window, floats and the clipboard.
