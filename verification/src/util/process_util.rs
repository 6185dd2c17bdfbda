//! Control of the running process.
use vstd::prelude::*;

verus! {

/// Control of the running process. Ending the process belongs to the program
/// around the library, which gives this type its `kill_program`.
pub struct ProcessUtils;

} // verus!
