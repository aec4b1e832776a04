//! The cooptation API, where a request becomes a cooptation resource.
use vstd::prelude::*;

use crate::api::profiling::{get, profile_value, reads_parts};
use crate::pattern::{compile, regex_compiles};
use crate::reader::{Email, EmailModel, HEADER_FIELD_PATTERN};
use crate::text::{concatenate, decimal, decimal_string};

verus! {

/// The endpoint under the API root `url` where cooptations are posted.
pub open spec fn cooptation_url(url: Seq<char>) -> Seq<char> {
    url + "api/test/cooptation"@
}

/// The text fields of a cooptation, in the order in which they are posted:
/// the profiled branch, first name, last name, address, relation and phone,
/// then the id of the user who asks.
pub open spec fn form_fields(email: EmailModel, user_id: u32) -> Seq<(Seq<char>, Seq<char>)> {
    seq![
        ("branch"@, profile_value(email, "branch"@)),
        ("firstname"@, profile_value(email, "firstname"@)),
        ("lastname"@, profile_value(email, "lastname"@)),
        ("email"@, profile_value(email, "email"@)),
        ("relation"@, profile_value(email, "relation"@)),
        ("phone"@, profile_value(email, "phone"@)),
        ("userid"@, decimal(user_id as nat)),
    ]
}

/// The endpoint under the API root `url` where cooptations are posted.
pub fn cooptation_post_url(url: &str) -> (res: String)
    ensures
        res@ == cooptation_url(url@),
{
    concatenate(url, "api/test/cooptation")
}

/// Whether some part of the message is no attachment.
fn has_text_candidate(email: &Email) -> (res: bool)
    ensures
        res == reads_parts(email@),
{
    let n = email.body.len();
    for i in 0..n
        invariant
            n == email.body@.len(),
            forall|k: int| 0 <= k < i ==> (#[trigger] email@.body[k]).is_attachment,
    {
        assert(email@.body[i as int] == email.body@[i as int]@);
        if !email.body[i].is_attachment {
            return true;
        }
    }
    false
}

/// The profiled value for `key`.
fn profiled(email: &Email, key: &str) -> (res: String)
    requires
        reads_parts(email@) ==> regex_compiles(HEADER_FIELD_PATTERN@),
    ensures
        res@ == profile_value(email@, key@),
{
    match get(email, key) {
        Ok(v) => v,
        Err(_) => String::new(),
    }
}

/// The text fields of the cooptation that `email`, sent by the user
/// `user_id`, asks for; `None` where the header pattern that reading the
/// message text needs does not compile.
pub fn cooptation_form_fields(email: &Email, user_id: u32) -> (res: Option<Vec<(String, String)>>)
    ensures
        res is None <==> (reads_parts(email@) && !regex_compiles(HEADER_FIELD_PATTERN@)),
        res matches Some(f) ==> f.deep_view() == form_fields(email@, user_id),
{
    if has_text_candidate(email) && compile(HEADER_FIELD_PATTERN).is_err() {
        return None;
    }
    let mut fields: Vec<(String, String)> = Vec::new();
    fields.push(("branch".to_owned(), profiled(email, "branch")));
    fields.push(("firstname".to_owned(), profiled(email, "firstname")));
    fields.push(("lastname".to_owned(), profiled(email, "lastname")));
    fields.push(("email".to_owned(), profiled(email, "email")));
    fields.push(("relation".to_owned(), profiled(email, "relation")));
    fields.push(("phone".to_owned(), profiled(email, "phone")));
    fields.push(("userid".to_owned(), decimal_string(user_id)));
    assert(fields.deep_view() =~= form_fields(email@, user_id));
    Some(fields)
}

} // verus!
