//! Small verified building blocks for a test-suite toolkit: fixtures and a
//! retry combinator, text validation, integer parsing, UTF-8 checking and
//! slice statistics.

pub mod text;
pub mod number;

pub mod fixtures;
pub mod ascii;
pub mod edge;
pub mod input;
pub mod suite;
pub mod stats;
pub mod semantics;
pub mod syntax;
