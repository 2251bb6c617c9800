//! The options a run of the tool is given, once the command line has been
//! read: the source text, the destination directory, and whether the output
//! should be pretty-printed rather than emitted as a plain token stream.

use vstd::prelude::*;

verus! {

/// One run's inputs: the whole source text, the path of the directory the
/// file tree is to be rooted at, and the output style.
pub struct FormOpts {
    pub input: String,
    pub output_dir: String,
    pub format_output: bool,
}

} // verus!
