//! What a code-generation target produces.

use vstd::prelude::*;
use crate::text::owned;

verus! {

/// One file a target produces; `relative_path` is relative to the output
/// directory.
#[derive(Debug, Clone)]
pub struct GeneratedFile {
    pub relative_path: String,
    pub contents: String,
}

impl GeneratedFile {
    pub fn new(relative_path: &str, contents: &str) -> (f: GeneratedFile)
        ensures
            f.relative_path@ == relative_path@,
            f.contents@ == contents@,
    {
        GeneratedFile { relative_path: owned(relative_path), contents: owned(contents) }
    }
}

} // verus!
