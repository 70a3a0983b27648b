//! Process exit codes for the fatal paths.
use vstd::prelude::*;

verus! {

/// No input file was given.
pub const ARG_MISSING_ERR: i32 = 3;
/// The heap size argument could not be converted.
pub const MAXMEM_CONVERSION_ERR: i32 = 4;
/// The metadata header could not be read.
pub const METADATA_ERR: i32 = 5;
/// The file could not be read or decoded.
pub const FILE_DATA_ERR: i32 = 6;
/// An allocation on the heap failed.
pub const HEAP_ALLOC_ERR: i32 = 2;
/// Checking for updates failed.
pub const UPDATE_CHECK_ERR: i32 = 7;
/// A feature was not enabled at build time.
pub const FEATURE_ERR: i32 = 10;
/// A pop on an empty stack in the primary unit.
pub const STACK_UNDERFLOW_ERR: i32 = 11;
/// A push on a full stack in the primary unit.
pub const STACK_OVERFLOW_ERR: i32 = 12;
/// The output thread could not start.
pub const PRINT_THREAD_ERR: i32 = 13;

} // verus!
