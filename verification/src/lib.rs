//! Shotori's verified core: the pixel, selection-history, theme and
//! command-line logic of a Wayland screenshot tool, with contracts proved
//! by Verus. Windowing, compositor I/O and floating-point geometry live in
//! the companion program under `app/`.

pub mod pixels;
pub mod args;
pub mod theme;
pub mod annotation;
pub mod filter;
pub mod save;
pub mod text;
pub mod clipboard;
pub mod notify;
pub mod export;
pub mod ocr;
pub mod ocr_setup;
pub mod capture;
pub mod windowsnap;
pub mod stitch;
