//! What every call of the control plane answers: a status code, a status
//! message and a value.

use vstd::prelude::*;

verus! {

/// The status of a call that failed on the caller's part.
pub const ERROR_CODE: i32 = -1;

/// The status of a call that the callee could not complete.
pub const FAILURE_CODE: i32 = 0;

/// The least status of a call that succeeded.
pub const SUCCESS_CODE: i32 = 1;

/// A call that did not succeed, with the reason that came with it.
#[derive(Clone, Debug, PartialEq, Eq)]
pub enum ResponseError {
    /// The callee blames the caller.
    Client(String),
    /// The callee could not do what was asked.
    Server(String),
    /// No answer came: the transport failed.
    Transport(String),
}

/// What a call gives: its value, or why there is none.
pub type Response<T> = Result<T, ResponseError>;

impl ResponseError {
    /// The reason that came with the error.
    pub fn reason(&self) -> (r: &str)
        ensures
            r@ == match *self {
                ResponseError::Client(m) => m@,
                ResponseError::Server(m) => m@,
                ResponseError::Transport(m) => m@,
            },
    {
        match self {
            ResponseError::Client(m) => m.as_str(),
            ResponseError::Server(m) => m.as_str(),
            ResponseError::Transport(m) => m.as_str(),
        }
    }
}

/// Reads the three parts of an answer: a status of one or more hands the
/// value on; a status of minus one blames the caller; every other status
/// blames the callee. Both errors carry the message.
pub fn response<T>(code: i32, message: String, value: T) -> (r: Response<T>)
    ensures
        r == if code >= SUCCESS_CODE {
            Ok::<T, ResponseError>(value)
        } else if code == ERROR_CODE {
            Err::<T, ResponseError>(ResponseError::Client(message))
        } else {
            Err::<T, ResponseError>(ResponseError::Server(message))
        },
{
    if code >= SUCCESS_CODE {
        Ok(value)
    } else if code == ERROR_CODE {
        Err(ResponseError::Client(message))
    } else {
        Err(ResponseError::Server(message))
    }
}

} // verus!
