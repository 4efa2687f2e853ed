use vstd::prelude::*;

verus! {

/// The mutex of a standard stream was poisoned by a holder that panicked.
#[derive(Debug, Clone, Copy, PartialEq, Eq)]
pub struct LockPoisonError;

impl LockPoisonError {
    /// The error in words: its own name.
    pub fn message(&self) -> (text: String)
        ensures
            text@ == "LockPoisonError"@,
    {
        "LockPoisonError".to_owned()
    }
}

/// Why an operation on a buffered stream failed.
///
/// `E` is the failure type of the underlying resource; a stream hands such a
/// value on unchanged.
#[derive(Debug, PartialEq, Eq)]
pub enum StdioError<E> {
    /// The mutex of the slot is poisoned. Nothing is retried.
    LockUnavailable(LockPoisonError),
    /// The read or write primitive of the resource reported `E`.
    Io(E),
    /// A flush asked the resource to take `requested` bytes and it reported
    /// `written` instead. The buffered output is left as it was.
    ShortWrite { requested: usize, written: usize },
    /// The resource ran dry after `obtained` bytes although an exact count
    /// was demanded.
    EarlyEndOfInput { obtained: usize },
}

/// Holds the outcome of a read to the `want` bytes that its caller cannot
/// do without. A read that ended with fewer met the end of the input first,
/// and its count is reported as `EarlyEndOfInput`; a failure stays what it
/// was.
pub fn exactly<E>(want: usize, outcome: Result<usize, StdioError<E>>) -> (r: Result<
    (),
    StdioError<E>,
>)
    ensures
        r == match outcome {
            Ok(n) => if n >= want {
                Ok(())
            } else {
                Err(StdioError::EarlyEndOfInput { obtained: n })
            },
            Err(e) => Err(e),
        },
{
    match outcome {
        Ok(n) => if n >= want {
            Ok(())
        } else {
            Err(StdioError::EarlyEndOfInput { obtained: n })
        },
        Err(e) => Err(e),
    }
}

} // verus!
