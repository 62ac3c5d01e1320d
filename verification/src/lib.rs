//! A simulated ANSI terminal.
//!
//! The crate models the visible state of a text terminal — a grid of styled
//! characters plus a cursor — by interpreting a byte stream of literal text
//! and ANSI/VT escape sequences exactly as a terminal would, without any
//! device I/O.  A double-buffered simulator compares two such screens and
//! emits the control bytes that turn one into the other, so a caller can
//! repaint a real terminal without redrawing every cell.
//!
//! The text model is deliberately ASCII-only: a cell holds one printable
//! ASCII character, and every byte outside that range that is not part of
//! an escape sequence — multi-byte UTF-8 sequences included — is consumed
//! without touching the grid.

pub mod position;
pub mod style;
pub mod cell;
pub mod vt;
pub mod ansimulation;
pub mod emit;
pub mod ansimulator;
pub mod laws;

pub use position::Position;
pub use ansimulator::Ansimulator;
pub use ansimulation::Ansimulation;
pub use style::Style;
pub use cell::Cell;
