//! Configuration that the library reads.

use vstd::prelude::*;

verus! {

/// How the entries of the compilation database are written.
#[derive(Debug, Clone, Copy, PartialEq, Eq)]
pub struct Format {
    /// Write the command as a list of arguments rather than as one string.
    pub command_as_array: bool,
    /// Leave the `output` field out of every entry.
    pub drop_output_field: bool,
    /// Write the `file` and `output` fields as absolute paths.
    pub use_absolute_path: bool,
}

} // verus!
