//! The flavour a build of the core was produced with.

use vstd::prelude::*;

use crate::errors::OsError;

verus! {

/// The build flavours the core can be produced in.
#[derive(Clone, Copy, Debug, PartialEq, Eq, Structural)]
pub enum CompilationMode {
    Debug,
    FastBuild,
    Optimised,
}

impl CompilationMode {
    /// The short name of each mode.
    pub open spec fn name_spec(self) -> Seq<char> {
        match self {
            CompilationMode::Debug => "debug"@,
            CompilationMode::FastBuild => "fastbuild"@,
            CompilationMode::Optimised => "opt"@,
        }
    }

    /// The short name under which the mode is reported.
    pub fn name(&self) -> (r: &'static str)
        ensures
            r@ == self.name_spec(),
    {
        match self {
            CompilationMode::Debug => "debug",
            CompilationMode::FastBuild => "fastbuild",
            CompilationMode::Optimised => "opt",
        }
    }
}

/// Reports a state machine observed in an impossible variant.  This is
/// unrecoverable: every caller propagates the error and never continues
/// silently.
pub fn unexpected<T>(_text: &str) -> (r: Result<T, OsError>)
    ensures
        r == Result::<T, OsError>::Err(OsError::Unexpected),
{
    Err(OsError::Unexpected)
}

} // verus!
