use vstd::prelude::*;

verus! {

/// The errors of every fallible operation of the library.
#[derive(Clone, Copy, Debug, PartialEq, Eq, Structural)]
pub enum Error {
    /// Caller-supplied data breaks a local precondition: an invalid field
    /// name, an embedded NUL in a string bound for a C primitive. Raised
    /// before any call into the journal.
    Validation,
    /// A journal primitive returned a negative status; `code` is its negation,
    /// an errno value.
    Io { code: i64 },
    /// A value needing conversion (a duration in microseconds) does not fit.
    Overflow,
}

/// The error for a negative status `ret`, or `None` for a success status.
pub open spec fn status_error(ret: i32) -> Option<Error> {
    if ret < 0 {
        Some(Error::Io { code: -(ret as int) as i64 })
    } else {
        None
    }
}

/// Turns the status of a journal primitive into a `Result`: a negative value
/// is an errno-style failure, anything else is handed back.
pub fn ffi_result(ret: i32) -> (r: Result<i32, Error>)
    ensures
        ret < 0 ==> r == Err::<i32, Error>(Error::Io { code: -(ret as int) as i64 }),
        ret >= 0 ==> r == Ok::<i32, Error>(ret),
        match status_error(ret) {
            Some(e) => r == Err::<i32, Error>(e),
            None => r == Ok::<i32, Error>(ret),
        },
{
    if ret < 0 {
        let code: i64 = -(ret as i64);
        Err(Error::Io { code })
    } else {
        Ok(ret)
    }
}

} // verus!
