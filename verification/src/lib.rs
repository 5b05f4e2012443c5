//! ram_tui — verified core of a terminal memory monitor: procfs parsing,
//! process ranking, ANSI/cell-width text arithmetic and frame diffing.

pub mod text;
pub mod ansi;
pub mod cellwidth;
pub mod format;
pub mod clamp;
pub mod civil;
pub mod sorting;
pub mod cgroup;
pub mod meminfo;
pub mod procfs;
pub mod processes;
pub mod framebuf;
pub mod meter;
pub mod themes;
pub mod terminal;
pub mod session;
pub mod palette;
pub mod layout;
pub mod dashboard;
pub mod diagnostics;
pub mod minimal;
pub mod screen;
