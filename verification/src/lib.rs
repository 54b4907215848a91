//! A verified transpiler from a parsed markdown document tree to Typst
//! markup, together with the small pure helpers of the note editor that
//! surrounds it.

pub mod ast;
pub mod auth;
pub mod diff;
pub mod escape;
pub mod files;
pub mod footnotes;
pub mod gitinfo;
pub mod laws;
pub mod lines;
pub mod preprocess;
pub mod recent;
pub mod render;
pub mod speech;
pub mod text;
