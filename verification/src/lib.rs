//! Slotted-e-graph support for a rule-based e-graph engine.
//!
//! * [`sort`] holds the map and vector container sorts, their primitives and
//!   the renaming algebra (`compose`, `inverse`, `find-mapping`, `shape`).
//! * [`slotted_encoding`] rewrites programs so that terms which are equal up
//!   to a renaming of their free slots end up in one e-class.
//! * [`ast`] is the syntax that the encoding reads and writes, [`text`] its text,
//!   which [`surface`] reads as nested lists.
//! * [`names`] holds name tables and fresh-name generation.

pub mod ast;
pub mod names;
pub mod slotted_encoding;
pub mod sort;
pub mod surface;
pub mod text;
