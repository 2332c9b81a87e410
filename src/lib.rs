//! Merges text files into one stream of blocks framed by marker lines, checks
//! beforehand that the files can be framed safely, and decodes such a stream
//! back into its files.
//!
//! - `lines`: splitting bytes into lines, and joining them again.
//! - `merger`: the markers, the validator, the encoder and the decoder.
//! - `laws`: what holds across these, proved.
//! - `paths`: turning include and `!` exclude patterns into one path list.
use vstd::prelude::*;

pub mod laws;
pub mod lines;
pub mod merger;
pub mod paths;

verus! {

} // verus!
