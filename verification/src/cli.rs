//! Invocation options for a driver around the library.

use vstd::prelude::*;

verus! {

/// What a driver was asked to do: which file to build, and whether to run it
/// after a successful build.
#[derive(Debug, Clone, PartialEq, Eq)]
pub struct CompilerArgs {
    pub run: bool,
    pub filename: String,
}

impl Default for CompilerArgs {
    /// By default the program is run, and no file name is chosen yet.
    fn default() -> (r: Self)
        ensures
            r.run == true,
            r.filename@ == Seq::<char>::empty(),
    {
        let run = true;
        let filename = String::new();
        CompilerArgs { run, filename }
    }
}

} // verus!
