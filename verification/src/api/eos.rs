//! The EOS API, which knows the company's users.
use vstd::prelude::*;

use crate::text::concatenate;

verus! {

/// The lookup endpoint for the user with address `email`.
pub open spec fn worker_url(url: Seq<char>, email: Seq<char>) -> Seq<char> {
    url + "api/getWorkerbyEmail/"@ + email + "/exec"@
}

/// The id that stands for an unknown user.
pub const UNKNOWN_USER: u32 = 0;

/// The lookup endpoint under the API root `url` for the user with address `email`.
pub fn worker_lookup_url(url: &str, email: &str) -> (res: String)
    ensures
        res@ == worker_url(url@, email@),
{
    let s = concatenate(url, "api/getWorkerbyEmail/");
    let s = concatenate(s.as_str(), email);
    concatenate(s.as_str(), "/exec")
}

/// Whether a looked-up id names a user: requests of unknown users are rejected.
pub fn is_identified(user_id: u32) -> (res: bool)
    ensures
        res == (user_id != UNKNOWN_USER),
{
    user_id != UNKNOWN_USER
}

} // verus!
