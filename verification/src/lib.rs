//! Heuristic dependency scanning for a front-end component tree, plus the
//! state of a single supervised backend process.
//!
//! The scanning core is pure: it works on text handed to it by the caller and
//! never touches the file system itself. Directory walking, file reading and
//! process handling belong to the host application.

pub mod analysis;
pub mod scanner;
pub mod supervisor;
pub mod text;
