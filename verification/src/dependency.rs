//! The environment a command runs in.
use vstd::prelude::*;

verus! {

/// Where a program runs: Windows PE, a normal Windows, or elsewhere.
#[derive(Clone, Copy, Debug, PartialEq, Eq, Structural)]
pub enum RuntimeEnvironment {
    WindowsPE,
    WindowsNormal,
    Other,
}

} // verus!
