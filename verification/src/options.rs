//! The kinds of filter rule a user can state.

use vstd::prelude::*;

verus! {

/// One exclusion rule, in the three granularities the filter knows.
pub enum Exclude {
    /// Some parent directory (for directories: *or* itself) has exactly
    /// this name.
    DirName(String),
    /// A file (no directory) has exactly this name.
    FileName(String),
    /// Glob-like pattern, supporting `*`, `**`, etc. - like UNIX shell.
    /// This must be fully qualified (or *wildcarded) from the root
    /// source directory. Examples:
    /// - `main.js`     : the root folder's `main.js` only
    /// - `**/main.js`  : every file called `main.js` in all directories
    /// - `**/*.js`     : every `.js` file everywhere
    /// - `**/dir/*.js` : all `.js` files in all directories named `dir`
    Pattern(String),
}

} // verus!
