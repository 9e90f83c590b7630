use vstd::prelude::*;

verus! {

/// Why a program is refused or a run stops early.
///
/// The two bracket errors are raised while building the jump table,
/// before execution starts: `UnmatchedLoopEnd` carries the index of the
/// first loop end with no open loop, `UnmatchedLoopBegin` carries the
/// indices of the loop begins still open when the scan finished.
/// The two head errors stop a run that drives the head past an edge of
/// the signed 64-bit address space; they are reported rather than
/// letting the address wrap silently.
#[derive(Debug, PartialEq, Eq)]
pub enum VmError {
    UnmatchedLoopEnd(usize),
    UnmatchedLoopBegin(Vec<usize>),
    HeadUnderflow,
    HeadOverflow,
}

} // verus!
