//! The error surface of the REST layer: an HTTP status and a plain-text
//! message.

use vstd::prelude::*;

verus! {

/// An HTTP failure: status code and plain-text body.
#[derive(Debug)]
pub struct HttpError {
    pub status: u16,
    pub msg: String,
}

impl HttpError {
    /// 404 with the given message.
    pub fn not_found(msg: String) -> (r: HttpError)
        ensures
            r.status == 404,
            r.msg@ == msg@,
    {
        HttpError { status: 404, msg }
    }

    /// 400 with the given message.
    pub fn bad_request(msg: String) -> (r: HttpError)
        ensures
            r.status == 400,
            r.msg@ == msg@,
    {
        HttpError { status: 400, msg }
    }

    /// 500 with the given message.
    pub fn internal(msg: String) -> (r: HttpError)
        ensures
            r.status == 500,
            r.msg@ == msg@,
    {
        HttpError { status: 500, msg }
    }
}

impl From<String> for HttpError {
    /// A bare message is a bad request, as the daemon's error texts are.
    fn from(msg: String) -> (r: HttpError) {
        HttpError { status: 400, msg }
    }
}

impl vstd::std_specs::convert::FromSpecImpl<String> for HttpError {
    open spec fn obeys_from_spec() -> bool {
        true
    }

    open spec fn from_spec(msg: String) -> HttpError {
        HttpError { status: 400, msg }
    }
}

/// The daemon error text that stands for a missing block, which the REST
/// layer remaps to 404.
pub fn block_not_found_rpc_text() -> (r: String)
    ensures
        r@ == "getblock RPC error: {\"code\":-5,\"message\":\"Block not found\"}"@,
{
    String::from_str("getblock RPC error: {\"code\":-5,\"message\":\"Block not found\"}")
}

/// Map a daemon error text to its HTTP form: the missing-block text is a
/// 404, everything else a 400 carrying the text.
pub fn daemon_error(msg: String) -> (r: HttpError)
    ensures
        msg@ == "getblock RPC error: {\"code\":-5,\"message\":\"Block not found\"}"@ ==> r.status
            == 404 && r.msg@ == "Block not found"@,
        msg@ != "getblock RPC error: {\"code\":-5,\"message\":\"Block not found\"}"@ ==> r.status
            == 400 && r.msg@ == msg@,
{
    let probe = block_not_found_rpc_text();
    if msg == probe {
        HttpError::not_found(String::from_str("Block not found"))
    } else {
        HttpError::bad_request(msg)
    }
}

} // verus!
