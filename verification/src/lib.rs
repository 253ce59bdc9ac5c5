//! Decides which entries of a directory tree are to be excluded from
//! synchronisation, from layered per-directory rule files, and reconciles the
//! marker that each entry carries with that decision.
//!
//! The library performs no input or output. A caller lists directories, reads
//! rule files and markers, and hands the library plain values; the library
//! answers with the actions to perform and keeps the worklist of the walk.

pub mod laws;
pub mod rules;
pub mod stack;
pub mod state;
pub mod sweep;
pub mod walk;
