//! Requests to the company's APIs: what is sent, and how replies are read.
pub mod cooptation;
pub mod eos;
pub mod profiling;

use vstd::prelude::*;

use crate::text::concatenate;

verus! {

/// The login endpoint under the API root `url`.
pub open spec fn login_check_url(url: Seq<char>) -> Seq<char> {
    url + "api/login_check"@
}

/// The JSON body of a login request.
pub open spec fn login_body(username: Seq<char>, password: Seq<char>) -> Seq<char> {
    "{ \"_username\": \""@ + username + "\", \"_password\": \""@ + password + "\" }"@
}

/// The value of an `Authorization` header that carries `token`.
pub open spec fn bearer(token: Seq<char>) -> Seq<char> {
    "Bearer "@ + token
}

/// The status code of a successful reply.
pub const STATUS_OK: u16 = 200;

/// The login endpoint under the API root `url`.
pub fn login_url(url: &str) -> (res: String)
    ensures
        res@ == login_check_url(url@),
{
    concatenate(url, "api/login_check")
}

/// The JSON body of a login request for `username` and `password`.
pub fn login_request_body(username: &str, password: &str) -> (res: String)
    ensures
        res@ == login_body(username@, password@),
{
    let s = concatenate("{ \"_username\": \"", username);
    let s = concatenate(s.as_str(), "\", \"_password\": \"");
    let s = concatenate(s.as_str(), password);
    concatenate(s.as_str(), "\" }")
}

/// The value of an `Authorization` header that carries `token`.
pub fn bearer_authorization(token: &str) -> (res: String)
    ensures
        res@ == bearer(token@),
{
    concatenate("Bearer ", token)
}

/// Whether a reply with this status is read: only a `200 OK` is; for any
/// other, logging in yields the empty token and a user lookup the id 0.
pub fn is_ok_status(status: u16) -> (res: bool)
    ensures
        res == (status == STATUS_OK),
{
    status == STATUS_OK
}

} // verus!
