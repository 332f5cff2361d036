//! Arguments of the `wrap` command, which runs a test command with
//! coverage collection.
use vstd::prelude::*;
use crate::types::Language;

verus! {

/// Arguments of `apex wrap`.
#[derive(Debug, Clone)]
pub struct WrapArgs {
    /// Language of the project (detected from the command where absent).
    pub lang: Option<Language>,
    /// Directory to write coverage output files to.
    pub output_dir: String,
    /// The test command and its arguments (everything after `--`).
    pub cmd: Vec<String>,
}

} // verus!
