use vstd::prelude::*;

verus! {

/// Prepares the calculator. Evaluation keeps no state between calls, so
/// there is nothing to prepare and the core library path is not read.
pub fn initialize(_soulver_core_path: &str) {
}

} // verus!
