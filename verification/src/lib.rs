//! A small pass-composition library: programs are pairs of ordered `u64`
//! sequences (arguments and statements), a pass is a `Folder` that rewrites
//! arguments and keeps or drops statements, and two verified strategies
//! compose a chain of passes: element by element, or one whole traversal
//! per pass. Both strategies are proved to produce the same program.

pub mod compose;
pub mod folder;
pub mod laws;
pub mod passes;
pub mod program;
