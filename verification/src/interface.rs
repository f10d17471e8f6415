//! The options of a run over target files.
use vstd::prelude::*;
use crate::parsing_cocci::get_constants::Scanner;

verus! {

/// What to transform and how: the semantic patch, the target file or
/// directory, where to write, and how to present and select files.
pub struct CoccinelleForRust {
    /// Path of the semantic patch.
    pub coccifile: String,
    /// Path of the target file or directory.
    pub targetpath: String,
    /// Path of the transformed file.
    pub output: Option<String>,
    /// Path of a rustfmt configuration file.
    pub rustfmt_config: Option<String>,
    /// Files and directories whose path holds this text are left out.
    pub ignore: String,
    pub debug: bool,
    pub apply: bool,
    pub suppress_diff: bool,
    pub suppress_formatting: bool,
    pub no_parallel: bool,
    /// How files that the patch cannot change are left out.
    pub worth_trying: Scanner,
}

} // verus!
