//! Finds project directories below a base directory: directories whose
//! contents satisfy a set of file and directory glob patterns.

pub mod byte_lines;
pub mod cli;
pub mod glob;
pub mod harness;
pub mod matcher;
pub mod path_style;
pub mod paths;
pub mod pattern;
pub mod segments;
pub mod shortened_path;
pub mod text;
pub mod took;
pub mod tree;
pub mod walk;
