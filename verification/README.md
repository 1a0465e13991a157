# shotori

A Wayland-first screenshot tool whose core is verified with Verus.

- `src/` is the library, proved against its contracts except for a few
  trusted calls into `png`, `image` and `chrono` (marked `external_body`):
  pixel conversion and rotation of captured frames, the mosaic and blur
  filters, stitching outputs into one image, the annotation history, the
  theme files, the command line, the clipboard daemon's protocol, the
  notification hand-off, window-snap filtering for niri, sway and Hyprland,
  and the OCR text handling.
- `tests/` exercises the library on concrete values.
- `app/` is the program around it: Wayland capture, the clipboard daemon
  and notification child processes, compositor IPC, theme file loading,
  and the floating-point geometry.
