//! Verified core of a terminal-emulator widget: mouse-report encoding,
//! bracketed paste, selection geometry and gestures, keyword / privacy
//! highlighting of terminal rows, hyperlink scheme policy and hyperlink runs,
//! grid text extraction, scrolling, the paint decisions of a cell and the
//! viewport bookkeeping the widget relies on.
mod text;
pub mod mouse;
pub mod ascii;
pub mod scan;
pub mod ipv6;
pub mod highlight;
mod runs;
pub mod detect;
pub mod detect_laws;
pub mod privacy;
pub mod paste;
pub mod selection;
pub mod osc8;
pub mod viewport;
pub mod scroll;
pub mod settings;
pub mod colors;
pub mod perf;
pub mod grid;
pub mod links;
pub mod paragraph;
pub mod gesture;
pub mod smart;
pub mod coalesce;
pub mod report;
pub mod screen;
pub mod preedit;
pub mod spawn;
pub mod paint;
