use vstd::prelude::*;

verus! {

/// A value that can stand for a C call's return value, where `-1` reports
/// failure.
pub trait CheckNegativeOne {
    /// Whether this value is the failure sentinel `-1`.
    spec fn spec_is_negative_one(&self) -> bool;

    /// Whether this value is the failure sentinel `-1`.
    fn check_negative_one(&self) -> (r: bool)
        ensures
            r == self.spec_is_negative_one(),
    ;
}

impl CheckNegativeOne for i32 {
    open spec fn spec_is_negative_one(&self) -> bool {
        *self == -1
    }

    fn check_negative_one(&self) -> (r: bool)
        ensures
            r == self.spec_is_negative_one(),
    {
        *self == -1
    }
}

impl CheckNegativeOne for isize {
    open spec fn spec_is_negative_one(&self) -> bool {
        *self == -1
    }

    fn check_negative_one(&self) -> (r: bool)
        ensures
            r == self.spec_is_negative_one(),
    {
        *self == -1
    }
}

/// A C call reported failure by returning `-1`.
#[derive(Clone, Copy, Debug, PartialEq, Eq, Structural)]
pub struct SyscallFailed;

/// Sorts a C call's return value: `-1` becomes the error, anything else is
/// handed back unchanged.
pub fn rv_handler<T: CheckNegativeOne>(rv: T) -> (r: Result<T, SyscallFailed>)
    ensures
        match r {
            Ok(v) => v == rv && !rv.spec_is_negative_one(),
            Err(_) => rv.spec_is_negative_one(),
        },
{
    if rv.check_negative_one() {
        Err(SyscallFailed)
    } else {
        Ok(rv)
    }
}

} // verus!
