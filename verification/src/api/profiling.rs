//! What is known of the candidate that a request names, read from the
//! request message.
use vstd::prelude::*;

use crate::pattern::{captures_all, compile, regex_compiles};
use crate::reader::{
    group_text, header_fields, is_cooptation_subject, Email, EmailModel, PartModel,
    HEADER_FIELD_PATTERN,
};
use crate::text::{
    chars_of, contains, contains_chars, lemma_contains, lowercase, occurs_at, same_chars,
    to_lowercase,
};

verus! {

#[verifier::external_type_specification]
#[verifier::external_body]
pub struct ExIoError(std::io::Error);

/// What the text of a message is taken to be where its first part is HTML.
pub const HTML_BODY_NOTE: &'static str = "// TODO text/html message should be converted into text/plain";

/// What the text of a message is taken to be where none is found.
pub const BODY_NOT_FOUND: &'static str = "// TODO Message not found";

/// Reading the header lines of a part in order, at the first `Content-Type`
/// line (name compared in small letters) that says `text/plain`, the part's
/// content; else, at one that says `multipart/alternative`, the HTML note;
/// else, at one that says `text/html`, the part's content; `None` where no
/// such line comes.
pub open spec fn text_of_fields(rows: Seq<Seq<Option<Seq<char>>>>, content: Seq<char>) -> Option<
    Seq<char>,
>
    decreases rows.len(),
{
    if rows.len() == 0 {
        None
    } else if lowercase(group_text(rows[0], 1)) == "content-type"@ && contains(
        group_text(rows[0], 2),
        "text/plain"@,
    ) {
        Some(content)
    } else if lowercase(group_text(rows[0], 1)) == "content-type"@ && contains(
        group_text(rows[0], 2),
        "multipart/alternative"@,
    ) {
        Some(HTML_BODY_NOTE@)
    } else if lowercase(group_text(rows[0], 1)) == "content-type"@ && contains(
        group_text(rows[0], 2),
        "text/html"@,
    ) {
        Some(content)
    } else {
        text_of_fields(rows.drop_first(), content)
    }
}

/// The text of the first part among `parts` that is no attachment and whose
/// header lines give a text by `text_of_fields`.
pub open spec fn text_of_parts(parts: Seq<PartModel>) -> Option<Seq<char>>
    decreases parts.len(),
{
    if parts.len() == 0 {
        None
    } else if !parts[0].is_attachment && text_of_fields(
        header_fields(parts[0].header),
        parts[0].content,
    ) is Some {
        text_of_fields(header_fields(parts[0].header), parts[0].content)
    } else {
        text_of_parts(parts.drop_first())
    }
}

/// The text of a message: that of its first part that is no attachment and
/// has a text `Content-Type`; else the not-found note.
pub open spec fn body_text(email: EmailModel) -> Seq<char> {
    match text_of_parts(email.body) {
        Some(t) => t,
        None => BODY_NOT_FOUND@,
    }
}

/// Reading the text of a message compiles the header pattern: some part of
/// it is no attachment.
pub open spec fn reads_parts(email: EmailModel) -> bool {
    exists|k: int| 0 <= k < email.body.len() && !(#[trigger] email.body[k]).is_attachment
}

/// The purpose of a request: `cooptation` where its subject says so, else empty.
pub open spec fn purpose(email: EmailModel) -> Seq<char> {
    if is_cooptation_subject(email.subject) {
        "cooptation"@
    } else {
        Seq::empty()
    }
}

/// The value that profiling gives for `key`.
pub open spec fn profile_value(email: EmailModel, key: Seq<char>) -> Seq<char> {
    if key == "branch"@ {
        "Davidson Paris"@
    } else if key == "firstname"@ {
        "John"@
    } else if key == "lastname"@ {
        "Doe"@
    } else if key == "email"@ {
        "me@domain.tld"@
    } else if key == "relation"@ {
        body_text(email)
    } else if key == "phone"@ {
        "01 02 03 04 05"@
    } else if key == "purpose"@ {
        purpose(email)
    } else {
        Seq::empty()
    }
}

/// The part's text, from its captured header lines `rows` and its `content`,
/// as `text_of_fields` states it.
pub fn text_from_fields(rows: &Vec<Vec<Option<String>>>, content: &String) -> (res: Option<String>)
    ensures
        match res {
            Some(t) => text_of_fields(rows.deep_view(), content@) == Some(t@),
            None => text_of_fields(rows.deep_view(), content@) is None,
        },
{
    let content_type = chars_of("content-type");
    let plain = chars_of("text/plain");
    let html = chars_of("text/html");
    let alternative = chars_of("multipart/alternative");
    let n = rows.len();
    let ghost all = rows.deep_view();
    assert(all.skip(0) =~= all);
    for i in 0..n
        invariant
            n == rows@.len(),
            all == rows.deep_view(),
            content_type@ == "content-type"@,
            plain@ == "text/plain"@,
            html@ == "text/html"@,
            alternative@ == "multipart/alternative"@,
            text_of_fields(all, content@) == text_of_fields(all.skip(i as int), content@),
    {
        let row = &rows[i];
        let ghost r = all[i as int];
        assert(all.skip(i as int)[0] == r);
        assert(all.skip(i as int).drop_first() =~= all.skip(i + 1));
        let name = if row.len() > 1 {
            match &row[1] {
                Some(t) => chars_of(t.as_str()),
                None => Vec::new(),
            }
        } else {
            Vec::new()
        };
        let value = if row.len() > 2 {
            match &row[2] {
                Some(t) => chars_of(t.as_str()),
                None => Vec::new(),
            }
        } else {
            Vec::new()
        };
        assert(name@ == group_text(r, 1));
        assert(value@ == group_text(r, 2));
        if same_chars(&to_lowercase(&name), &content_type) {
            if contains_chars(&value, &plain) {
                return Some(content.clone());
            } else if contains_chars(&value, &alternative) {
                return Some(HTML_BODY_NOTE.to_owned());
            } else if contains_chars(&value, &html) {
                return Some(content.clone());
            }
        }
    }
    None
}

/// The text of the message: that of its first part that is no attachment
/// and whose `Content-Type` is text, read as `text_of_fields` states it.
pub fn get_body_text(email: &Email) -> (res: Result<String, std::io::Error>)
    requires
        reads_parts(email@) ==> regex_compiles(HEADER_FIELD_PATTERN@),
    ensures
        res matches Ok(t) && t@ == body_text(email@),
{
    let n = email.body.len();
    let ghost all = email@.body;
    assert(all.skip(0) =~= all);
    for i in 0..n
        invariant
            n == email.body@.len(),
            all == email@.body,
            reads_parts(email@) ==> regex_compiles(HEADER_FIELD_PATTERN@),
            text_of_parts(all) == text_of_parts(all.skip(i as int)),
    {
        let item = &email.body[i];
        assert(all[i as int] == item@);
        assert(all.skip(i as int)[0] == item@);
        assert(all.skip(i as int).drop_first() =~= all.skip(i + 1));
        if !item.is_attachment {
            assert(reads_parts(email@)) by {
                assert(!email@.body[i as int].is_attachment);
            }
            match compile(HEADER_FIELD_PATTERN) {
                Ok(re) => {
                    let rows = captures_all(&re, item.header.as_str());
                    match text_from_fields(&rows, &item.content) {
                        Some(t) => {
                            return Ok(t);
                        },
                        None => {},
                    }
                },
                Err(_) => {
                    proof {
                        assert(false);
                    }
                },
            }
        }
    }
    Ok(BODY_NOT_FOUND.to_owned())
}

/// The purpose of the request: `cooptation` where its subject, in small
/// letters, holds that word; else empty.
pub fn get_purpose(email: &Email) -> (res: Result<String, std::io::Error>)
    ensures
        res matches Ok(p) && p@ == purpose(email@),
{
    if contains_chars(&to_lowercase(&chars_of(email.subject.as_str())), &chars_of("cooptation")) {
        return Ok("cooptation".to_owned());
    }
    Ok(String::new())
}

/// The value that profiling gives for `key`: fixed values for the candidate's
/// branch, names, address and phone, the message text for `relation`, the
/// purpose for `purpose`, and the empty string for any other key.
pub fn get(email: &Email, key: &str) -> (res: Result<String, std::io::Error>)
    requires
        key@ == "relation"@ ==> (reads_parts(email@) ==> regex_compiles(HEADER_FIELD_PATTERN@)),
    ensures
        res matches Ok(v) && v@ == profile_value(email@, key@),
{
    let k = chars_of(key);
    let result = if same_chars(&k, &chars_of("branch")) {
        "Davidson Paris".to_owned()
    } else if same_chars(&k, &chars_of("firstname")) {
        "John".to_owned()
    } else if same_chars(&k, &chars_of("lastname")) {
        "Doe".to_owned()
    } else if same_chars(&k, &chars_of("email")) {
        "me@domain.tld".to_owned()
    } else if same_chars(&k, &chars_of("relation")) {
        match get_body_text(email) {
            Ok(t) => t,
            Err(_) => String::new(),
        }
    } else if same_chars(&k, &chars_of("phone")) {
        "01 02 03 04 05".to_owned()
    } else if same_chars(&k, &chars_of("purpose")) {
        match get_purpose(email) {
            Ok(p) => p,
            Err(_) => String::new(),
        }
    } else {
        String::new()
    };
    Ok(result)
}

/// The purpose that profiling gives is `cooptation` exactly for the messages
/// that the inbox keeps, and empty for all others.
pub proof fn lemma_purpose_is_filter(email: EmailModel)
    ensures
        (purpose(email) == "cooptation"@) == is_cooptation_subject(email.subject),
        purpose(email) == "cooptation"@ || purpose(email).len() == 0,
{
    reveal_strlit("cooptation");
}

/// Any key but the seven that profiling knows gives the empty value.
pub proof fn lemma_unknown_key(email: EmailModel, key: Seq<char>)
    requires
        key != "branch"@,
        key != "firstname"@,
        key != "lastname"@,
        key != "email"@,
        key != "relation"@,
        key != "phone"@,
        key != "purpose"@,
    ensures
        profile_value(email, key).len() == 0,
{
}

/// Profiling always succeeds, and its `relation` and `purpose` values are
/// the message text and the purpose.
pub proof fn lemma_profile_relation_purpose(email: EmailModel)
    ensures
        profile_value(email, "relation"@) == body_text(email),
        profile_value(email, "purpose"@) == purpose(email),
{
    reveal_strlit("relation");
    reveal_strlit("purpose");
    reveal_strlit("branch");
    reveal_strlit("firstname");
    reveal_strlit("lastname");
    reveal_strlit("email");
    reveal_strlit("phone");
    assert("relation"@.len() == 8 && "branch"@.len() == 6 && "firstname"@.len() == 9
        && "email"@.len() == 5 && "purpose"@.len() == 7 && "lastname"@.len() == 8);
    assert("relation"@[0] != "lastname"@[0]);
    assert("purpose"@[1] != "phone"@[1]);
}

/// Where the first header line of a part is a `Content-Type` that says
/// `text/plain`, the part's text is its whole content, whatever that content is.
pub proof fn lemma_plain_text_is_whole_content(
    rows: Seq<Seq<Option<Seq<char>>>>,
    content: Seq<char>,
)
    requires
        rows.len() > 0,
        lowercase(group_text(rows[0], 1)) == "content-type"@,
        exists|k: int| #[trigger] occurs_at(group_text(rows[0], 2), "text/plain"@, k),
    ensures
        text_of_fields(rows, content) == Some(content),
{
    lemma_contains(group_text(rows[0], 2), "text/plain"@);
}

/// The text read from a part's header lines is never a piece of its content:
/// it is the whole content, or the HTML note.
pub proof fn lemma_text_is_content_or_note(rows: Seq<Seq<Option<Seq<char>>>>, content: Seq<char>)
    ensures
        text_of_fields(rows, content) matches Some(t) ==> t == content || t == HTML_BODY_NOTE@,
    decreases rows.len(),
{
    if rows.len() > 0 {
        lemma_text_is_content_or_note(rows.drop_first(), content);
    }
}

/// The message text is the whole content of one of its parts that is no
/// attachment, or else one of the two notes.
pub proof fn lemma_body_text_origin(email: EmailModel)
    ensures
        body_text(email) == BODY_NOT_FOUND@ || body_text(email) == HTML_BODY_NOTE@ || exists|k: int|
            0 <= k < email.body.len() && !(#[trigger] email.body[k]).is_attachment && body_text(email)
                == email.body[k].content,
{
    lemma_parts_text_origin(email.body);
}

/// What `text_of_parts` finds is the whole content of a part that is no
/// attachment, or the HTML note.
proof fn lemma_parts_text_origin(parts: Seq<PartModel>)
    ensures
        text_of_parts(parts) matches Some(t) ==> t == HTML_BODY_NOTE@ || exists|k: int|
            0 <= k < parts.len() && !(#[trigger] parts[k]).is_attachment && t == parts[k].content,
    decreases parts.len(),
{
    if parts.len() > 0 {
        lemma_parts_text_origin(parts.drop_first());
        lemma_text_is_content_or_note(header_fields(parts[0].header), parts[0].content);
        if let Some(t) = text_of_parts(parts) {
            if t != HTML_BODY_NOTE@ && !(!parts[0].is_attachment && t == parts[0].content) {
                let rest = parts.drop_first();
                let k = choose|k: int| 0 <= k < rest.len() && !(#[trigger] rest[k]).is_attachment
                    && t == rest[k].content;
                assert(parts[k + 1] == rest[k]);
            }
        }
    }
}

} // verus!
