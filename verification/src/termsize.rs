//! Results of system calls: a call that returns -1 has failed, and the
//! reason is the error the system recorded for it.

use vstd::prelude::*;

verus! {

#[verifier::external_type_specification]
#[verifier::external_body]
pub struct ExIoError(std::io::Error);

/// The error of the last system call of this thread
/// (`std::io::Error::last_os_error`). It reads `errno`, so nothing is
/// stated of which error it is.
#[verifier::external_body]
fn last_os_error() -> (e: std::io::Error) {
    std::io::Error::last_os_error()
}

/// The return values of system calls, which signal failure with -1.
pub trait IsMinusOne {
    spec fn minus_one(&self) -> bool;

    fn is_minus_one(&self) -> (r: bool)
        ensures
            r == self.minus_one(),
    ;
}

impl IsMinusOne for i8 {
    open spec fn minus_one(&self) -> bool {
        *self == -1
    }

    fn is_minus_one(&self) -> (r: bool) {
        *self == -1
    }
}

impl IsMinusOne for i16 {
    open spec fn minus_one(&self) -> bool {
        *self == -1
    }

    fn is_minus_one(&self) -> (r: bool) {
        *self == -1
    }
}

impl IsMinusOne for i32 {
    open spec fn minus_one(&self) -> bool {
        *self == -1
    }

    fn is_minus_one(&self) -> (r: bool) {
        *self == -1
    }
}

impl IsMinusOne for i64 {
    open spec fn minus_one(&self) -> bool {
        *self == -1
    }

    fn is_minus_one(&self) -> (r: bool) {
        *self == -1
    }
}

impl IsMinusOne for isize {
    open spec fn minus_one(&self) -> bool {
        *self == -1
    }

    fn is_minus_one(&self) -> (r: bool) {
        *self == -1
    }
}

/// The result of a system call that returned `t`: the system's error when
/// it is -1, else `t` itself.
pub fn cvt<T: IsMinusOne>(t: T) -> (r: Result<T, std::io::Error>)
    ensures
        r is Err <==> t.minus_one(),
        r matches Ok(v) ==> v == t,
{
    if t.is_minus_one() {
        Err(last_os_error())
    } else {
        Ok(t)
    }
}

} // verus!
