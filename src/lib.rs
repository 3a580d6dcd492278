//! Rewrites the copyright notice at the top of a source file and the license
//! block at its end, in the file's own comment syntax, so that running it
//! again changes nothing.

pub mod footer;
pub mod header;
pub mod laws;
pub mod pipeline;
pub mod style;
pub mod text;
