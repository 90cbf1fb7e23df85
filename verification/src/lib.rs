//! Extraction of typed records from two semi-structured sources embedded in
//! project-board and contribution-calendar pages: a tagged-union column
//! decoder for board items, and a reconciler that merges machine-readable
//! day cells with human-readable tooltip counts into one ordered series.
pub mod args;
pub mod board;
pub mod contrib;
pub mod dates;
pub mod decode;
pub mod json;
pub mod proto;
pub mod strutil;
