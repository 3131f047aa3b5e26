//! Verified text-processing cores of small command-line utilities:
//! `cat`, `head`, `wc`, `uniq`, `find`, `grep` and `comm`.
//!
//! Each module holds what its utility decides and computes; reading files,
//! walking directories and parsing arguments are left to the caller.

pub mod text;
pub mod pattern;

pub mod cat;
pub mod comm;
pub mod find;
pub mod grep;
pub mod head;
pub mod uniq;
pub mod wc;
