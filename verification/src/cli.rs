use vstd::prelude::*;

verus! {

/// What the command line asks for.
#[derive(Debug, Clone)]
pub enum Commands {
    /// Print the path of every file in the archive `source`.
    List { source: String },
    /// Unpack the archive `source` into the directory `dest`.
    Extract { source: String, dest: String },
}

/// The parsed command line.
#[derive(Debug)]
pub struct Args {
    pub command: Commands,
}

} // verus!
