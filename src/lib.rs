//! Decoding of EMME binary matrix files and their conversion to CSV text.
//!
//! `reader` presents plain and gzip-compressed file contents as one byte
//! source, `matrix` decodes the binary layout and writes the two CSV forms,
//! and `lemmas` states what holds of decoding for every input.

pub mod util;
pub mod reader;
pub mod matrix;
pub mod lemmas;
