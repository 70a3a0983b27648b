//! The command-line options of the machine.
use vstd::prelude::*;

verus! {

/// The options the command line sets.
pub struct Args {
    /// Bytecode file to run; the extension may be left out.
    pub bin: Option<String>,
    /// Archive file to run.
    pub sar: Option<String>,
    /// Heap size, with a unit suffix (GB, MB, KB or B).
    pub maxmem: String,
    /// Capacity of the global repository.
    pub repo_size: usize,
    /// Show the binary's version metadata and stop.
    pub binver: bool,
    /// Run binaries built for a newer machine.
    pub force_newer_bin: bool,
    /// Show the machine's version and stop.
    pub version: bool,
}

} // verus!
