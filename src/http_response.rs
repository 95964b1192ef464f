//! The envelope of the admin HTTP replies: a code and a payload.
use vstd::prelude::*;

verus! {

/// Code of a successful reply.
pub const SUCCESS_CODE: u64 = 0;

/// Code of a reply that carries an error message.
pub const ERROR_CODE: u64 = 100;

/// An admin reply: `code` 0 with the payload, or 100 with an error text.
pub struct Response<T> {
    pub code: u64,
    pub data: T,
}

impl<T> Response<T> {
    pub fn success(data: T) -> (r: Response<T>)
        ensures
            r.code == SUCCESS_CODE,
            r.data == data,
    {
        Response { code: SUCCESS_CODE, data }
    }
}

impl Response<String> {
    pub fn error(err: String) -> (r: Response<String>)
        ensures
            r.code == ERROR_CODE,
            r.data == err,
    {
        Response { code: ERROR_CODE, data: err }
    }
}

} // verus!
