//! Reading a raw RFC 822 message: its header fields, and the parts of a
//! multipart body with their attachments.
use vstd::prelude::*;

use crate::pattern::{
    captures_all, compile, regex_captures, regex_compiles, regex_replaced, replace_first,
};
use crate::text::{
    append_chars, before_first, chars_of, contains, contains_chars, cut_once, find_from, join,
    lemma_contains, lemma_first_occurrence_after, lemma_lowercase_idempotent,
    lemma_replace_is_split_join, lemma_split_join, lemma_split_once, lowercase, occurs_at,
    prefix_before, replace, replace_all, same_chars, split, split_once, split_pieces, string_of,
    to_lowercase, views,
};

verus! {

/// The blank line that ends a header block.
pub const DOUBLE_CRLF: &'static str = "\r\n\r\n";

/// A line break.
pub const CRLF: &'static str = "\r\n";

/// One `Name: value` header line per match: the name is group 1, the value group 2.
pub const HEADER_FIELD_PATTERN: &'static str = r"(?m)^([a-zA-Z-]+): ([^\r]*)\r?$";

/// An e-mail address, possibly wrapped as `Display Name <address>`; the
/// address is the group named `value`.
pub const SIMPLE_VALUE_PATTERN: &'static str = r"^([^<>]*<)?(?P<value>[a-zA-Z0-9.!#$%&'*+/=?^_`{|}~-]+@[a-zA-Z0-9](?:[a-zA-Z0-9-]{0,61}[a-zA-Z0-9])?(?:\.[a-zA-Z0-9](?:[a-zA-Z0-9-]{0,61}[a-zA-Z0-9])?)*).*$";

/// The quoted `filename="..."` of a `Content-Disposition`, as the group named `filename`.
pub const FILENAME_PATTERN: &'static str = ".*filename=\"(?P<filename>.*)\".*";

/// The `boundary=` parameter of a multipart `Content-Type`, quoted or bare, as
/// the group named `boundary`; the match spans the whole text.
pub const BOUNDARY_PATTERN: &'static str = r#"(?s)^.*?boundary="?(?P<boundary>[^";\s]+)"?.*$"#;

/// The notice that stands before the first part of a multipart body.
pub const MIME_PREAMBLE: &'static str = "This is a multi-part message in MIME format.";

/// The directory into which attachments are written.
pub const ATTACHMENT_DIR: &'static str = "var/tmp/";

/// One part of a multipart message body.
pub struct EmailPart {
    /// The part's header block.
    pub header: String,
    /// What follows the header block: the text, or the Base64 of an attachment.
    pub content: String,
    /// The part's `Content-Disposition` says `attachment`.
    pub is_attachment: bool,
    /// The attachment's file name; empty for a part that is no attachment.
    pub filename: String,
    /// A blank line follows the part's header block, so that it has content.
    pub has_body: bool,
}

/// What an [`EmailPart`] holds, as character sequences.
pub struct PartModel {
    pub header: Seq<char>,
    pub content: Seq<char>,
    pub is_attachment: bool,
    pub filename: Seq<char>,
    pub has_body: bool,
}

impl View for EmailPart {
    type V = PartModel;

    open spec fn view(&self) -> PartModel {
        PartModel {
            header: self.header@,
            content: self.content@,
            is_attachment: self.is_attachment,
            filename: self.filename@,
            has_body: self.has_body,
        }
    }
}

/// A message read from the inbox.
pub struct Email {
    /// The header block.
    pub header: String,
    /// The parts of the body.
    pub body: Vec<EmailPart>,
    /// The address in `Message-ID`.
    pub message_id: String,
    /// The address in `References`.
    pub references: String,
    /// The sender's address, from `From`.
    pub sender: String,
    /// The `Subject`.
    pub subject: String,
    /// Where the first attachment that has content is written; empty where there is none.
    pub attachment: String,
}

/// What an [`Email`] holds, as character sequences.
pub struct EmailModel {
    pub header: Seq<char>,
    pub body: Seq<PartModel>,
    pub message_id: Seq<char>,
    pub references: Seq<char>,
    pub sender: Seq<char>,
    pub subject: Seq<char>,
    pub attachment: Seq<char>,
}

/// The models of the parts `v`, in order.
pub open spec fn part_views(v: Seq<EmailPart>) -> Seq<PartModel> {
    v.map_values(|p: EmailPart| p@)
}

impl View for Email {
    type V = EmailModel;

    open spec fn view(&self) -> EmailModel {
        EmailModel {
            header: self.header@,
            body: part_views(self.body@),
            message_id: self.message_id@,
            references: self.references@,
            sender: self.sender@,
            subject: self.subject@,
            attachment: self.attachment@,
        }
    }
}

/// The text of group `i` of one match, or the empty text where it took no part.
pub open spec fn group_text(row: Seq<Option<Seq<char>>>, i: int) -> Seq<char> {
    if 0 <= i < row.len() {
        match row[i] {
            Some(t) => t,
            None => Seq::empty(),
        }
    } else {
        Seq::empty()
    }
}

/// The value (group 2) of the first header line whose name (group 1) is `key`.
pub open spec fn field_value(rows: Seq<Seq<Option<Seq<char>>>>, key: Seq<char>) -> Option<
    Seq<char>,
>
    decreases rows.len(),
{
    if rows.len() == 0 {
        None
    } else if group_text(rows[0], 1) == key {
        Some(group_text(rows[0], 2))
    } else {
        field_value(rows.drop_first(), key)
    }
}

/// The header lines of `header`, as the header pattern finds them.
pub open spec fn header_fields(header: Seq<char>) -> Seq<Seq<Option<Seq<char>>>> {
    regex_captures(HEADER_FIELD_PATTERN@, header)
}

/// The address inside a header value such as `John Doe <john.doe@foo.bar>`.
pub open spec fn simple_value(value: Seq<char>) -> Seq<char> {
    regex_replaced(SIMPLE_VALUE_PATTERN@, value, "$value"@)
}

/// The simplified value of the header field `key`, or the empty text where there is none.
pub open spec fn attribute(header: Seq<char>, key: Seq<char>) -> Seq<char> {
    match field_value(header_fields(header), key) {
        Some(v) => simple_value(v),
        None => Seq::empty(),
    }
}

/// The value of the header line named `key` among the captured header lines `rows`.
pub fn find_field(rows: &Vec<Vec<Option<String>>>, key: &str) -> (res: Option<String>)
    ensures
        match res {
            Some(v) => field_value(rows.deep_view(), key@) == Some(v@),
            None => field_value(rows.deep_view(), key@) is None,
        },
{
    let key_chars = chars_of(key);
    let n = rows.len();
    let ghost all = rows.deep_view();
    assert(all.skip(0) =~= all);
    for i in 0..n
        invariant
            n == rows@.len(),
            all == rows.deep_view(),
            key_chars@ == key@,
            field_value(all, key@) == field_value(all.skip(i as int), key@),
    {
        let row = &rows[i];
        let ghost r = all[i as int];
        assert(all.skip(i as int)[0] == r);
        assert(all.skip(i as int).drop_first() =~= all.skip(i + 1));
        let name = if row.len() > 1 {
            match &row[1] {
                Some(t) => chars_of(t.as_str()),
                None => Vec::new(),
            }
        } else {
            Vec::new()
        };
        assert(name@ == group_text(r, 1));
        if same_chars(&name, &key_chars) {
            let value = if row.len() > 2 {
                match &row[2] {
                    Some(t) => t.clone(),
                    None => String::new(),
                }
            } else {
                String::new()
            };
            assert(value@ == group_text(r, 2));
            return Some(value);
        }
    }
    None
}

/// The file name of an attachment, read from its header block.
pub open spec fn attachment_filename(data: Seq<char>) -> Seq<char> {
    regex_replaced(FILENAME_PATTERN@, replace_all(data, CRLF@, " "@), "$filename"@)
}

/// The boundary delimiter named in the first header block of `input`.
pub open spec fn boundary_of(input: Seq<char>) -> Seq<char> {
    regex_replaced(
        BOUNDARY_PATTERN@,
        replace_all(prefix_before(input, DOUBLE_CRLF@), CRLF@, " "@),
        "$boundary"@,
    )
}

/// `s` with each line break replaced by `with`.
fn replace_crlf(s: &str, with: &str) -> (res: String)
    ensures
        res@ == replace_all(s@, CRLF@, with@),
{
    proof {
        reveal_strlit("\r\n");
    }
    let from = chars_of(CRLF);
    let out = replace(&chars_of(s), &from, &chars_of(with));
    string_of(&out)
}

/// The core value of a `<>`-wrapped header value: for
/// `"John Doe <john.doe@foo.bar>"` it is `"john.doe@foo.bar"`.
pub fn get_simple_value(complex_value: String) -> (res: String)
    requires
        regex_compiles(SIMPLE_VALUE_PATTERN@),
    ensures
        res@ == simple_value(complex_value@),
{
    match compile(SIMPLE_VALUE_PATTERN) {
        Ok(re) => replace_first(&re, complex_value.as_str(), "$value"),
        Err(_) => {
            proof {
                assert(false);
            }
            String::new()
        },
    }
}

/// The simplified value of the header field named `key`; the empty string
/// where `header` has no such field.
pub fn get_email_attribute(header: String, key: &str) -> (res: String)
    requires
        regex_compiles(HEADER_FIELD_PATTERN@),
        regex_compiles(SIMPLE_VALUE_PATTERN@),
    ensures
        res@ == attribute(header@, key@),
        field_value(header_fields(header@), key@) is None ==> res@.len() == 0,
{
    match compile(HEADER_FIELD_PATTERN) {
        Ok(re) => {
            let rows = captures_all(&re, header.as_str());
            match find_field(&rows, key) {
                Some(v) => get_simple_value(v),
                None => String::new(),
            }
        },
        Err(_) => {
            proof {
                assert(false);
            }
            String::new()
        },
    }
}

/// `body` up to the first occurrence of `end_boundary`, which is left out
/// with everything after it; all of `body` where it does not occur.
pub fn get_simpler_body(body: String, end_boundary: &str) -> (res: String)
    ensures
        res@ == prefix_before(body@, end_boundary@),
        end_boundary@.len() > 0 ==> !contains(res@, end_boundary@),
        !contains(body@, end_boundary@) ==> res@ == body@,
        end_boundary@.len() > 0 && contains(body@, end_boundary@) ==> exists|rest: Seq<char>|
            body@ == res@ + end_boundary@ + rest,
{
    proof {
        if end_boundary@.len() > 0 {
            lemma_split_once(body@, end_boundary@);
            if let Some(rest) = split_once(body@, end_boundary@).1 {
                assert(body@ == prefix_before(body@, end_boundary@) + end_boundary@ + rest);
            }
        } else {
            assert(body@.subrange(0, 0) =~= end_boundary@);
        }
    }
    string_of(&before_first(&chars_of(body.as_str()), &chars_of(end_boundary)))
}

/// The file name that the header block of an attachment gives in `filename="..."`.
pub fn get_attachment_filename(data: String) -> (res: String)
    requires
        regex_compiles(FILENAME_PATTERN@),
    ensures
        res@ == attachment_filename(data@),
{
    let data = replace_crlf(data.as_str(), " ");
    match compile(FILENAME_PATTERN) {
        Ok(re) => replace_first(&re, data.as_str(), "$filename"),
        Err(_) => {
            proof {
                assert(false);
            }
            String::new()
        },
    }
}

/// The boundary delimiter of a multipart body, read from the first header block of `input`.
pub fn get_boundary(input: String) -> (res: String)
    requires
        regex_compiles(BOUNDARY_PATTERN@),
    ensures
        res@ == boundary_of(input@),
{
    let first = before_first(&chars_of(input.as_str()), &chars_of(DOUBLE_CRLF));
    let first = replace_crlf(string_of(&first).as_str(), " ");
    match compile(BOUNDARY_PATTERN) {
        Ok(re) => replace_first(&re, first.as_str(), "$boundary"),
        Err(_) => {
            proof {
                assert(false);
            }
            String::new()
        },
    }
}

/// A piece of the body between two boundaries that holds no part: the
/// preamble, or the closing `--` of the last boundary.
pub open spec fn skipped_piece(piece: Seq<char>) -> bool {
    contains(piece, MIME_PREAMBLE@) || piece == "--"@ + DOUBLE_CRLF@
}

/// The part that one piece of the body makes: its header block, what follows
/// the first blank line, and, where the `Content-Disposition` says
/// `attachment`, the attachment's file name.
pub open spec fn part_model(piece: Seq<char>) -> PartModel {
    let head = split_once(piece, DOUBLE_CRLF@).0;
    let is_attachment = contains(attribute(head, "Content-Disposition"@), "attachment"@);
    PartModel {
        header: head,
        content: match split_once(piece, DOUBLE_CRLF@).1 {
            Some(c) => c,
            None => Seq::empty(),
        },
        is_attachment,
        filename: if is_attachment {
            attachment_filename(head)
        } else {
            Seq::empty()
        },
        has_body: split_once(piece, DOUBLE_CRLF@).1 is Some,
    }
}

/// The parts that the pieces make, skipped pieces left out, in order.
pub open spec fn parts_of(pieces: Seq<Seq<char>>) -> Seq<PartModel>
    decreases pieces.len(),
{
    if pieces.len() == 0 {
        Seq::empty()
    } else if skipped_piece(pieces.last()) {
        parts_of(pieces.drop_last())
    } else {
        parts_of(pieces.drop_last()).push(part_model(pieces.last()))
    }
}

/// The closing delimiter `\r\n--boundary--\r\n` that ends a multipart body.
pub open spec fn end_boundary(boundary: Seq<char>) -> Seq<char> {
    "\r\n--"@ + boundary + "--\r\n"@
}

/// The parts of a multipart `body` whose message header block is `headers`:
/// the body up to its closing delimiter, split at the boundary.
pub open spec fn body_parts(headers: Seq<char>, body: Seq<char>) -> Seq<PartModel> {
    let boundary = boundary_of(headers);
    parts_of(split_pieces(prefix_before(body, end_boundary(boundary)), boundary))
}

/// The part that one piece of the body makes.
fn make_part(piece: &[char]) -> (res: EmailPart)
    requires
        regex_compiles(HEADER_FIELD_PATTERN@),
        regex_compiles(SIMPLE_VALUE_PATTERN@),
        regex_compiles(FILENAME_PATTERN@),
    ensures
        res@ == part_model(piece@),
{
    let (head, rest) = cut_once(piece, &chars_of(DOUBLE_CRLF));
    let header = string_of(&head);
    let disposition = get_email_attribute(header.clone(), "Content-Disposition");
    let is_attachment = contains_chars(&chars_of(disposition.as_str()), &chars_of("attachment"));
    let filename = if is_attachment {
        get_attachment_filename(header.clone())
    } else {
        String::new()
    };
    let has_body = rest.is_some();
    let content = match rest {
        Some(c) => string_of(&c),
        None => String::new(),
    };
    EmailPart { header, content, is_attachment, filename, has_body }
}

/// Whether a piece of the body holds no part.
fn is_skipped_piece(piece: &[char]) -> (res: bool)
    ensures
        res == skipped_piece(piece@),
{
    let mut closing = chars_of("--");
    append_chars(&mut closing, &chars_of(DOUBLE_CRLF));
    contains_chars(piece, &chars_of(MIME_PREAMBLE)) || same_chars(piece, &closing)
}

/// The parts of a multipart `body`, given the message's header block:
/// the body is cut at its closing delimiter and split at the boundary that
/// the headers name; the preamble and the closing piece are left out.
pub fn get_body_parts(headers: String, body: String) -> (res: Vec<EmailPart>)
    requires
        regex_compiles(HEADER_FIELD_PATTERN@),
        regex_compiles(SIMPLE_VALUE_PATTERN@),
        regex_compiles(FILENAME_PATTERN@),
        regex_compiles(BOUNDARY_PATTERN@),
    ensures
        part_views(res@) == body_parts(headers@, body@),
{
    let boundary = get_boundary(headers);
    let mut end = chars_of("\r\n--");
    append_chars(&mut end, &chars_of(boundary.as_str()));
    append_chars(&mut end, &chars_of("--\r\n"));
    let body = get_simpler_body(body, string_of(&end).as_str());
    let pieces = split(&chars_of(body.as_str()), &chars_of(boundary.as_str()));
    let ghost all = views(pieces@);
    let mut parts: Vec<EmailPart> = Vec::new();
    let n = pieces.len();
    assert(all.take(0) =~= Seq::<Seq<char>>::empty());
    for i in 0..n
        invariant
            n == pieces@.len(),
            all == views(pieces@),
            regex_compiles(HEADER_FIELD_PATTERN@),
            regex_compiles(SIMPLE_VALUE_PATTERN@),
            regex_compiles(FILENAME_PATTERN@),
            part_views(parts@) == parts_of(all.take(i as int)),
    {
        let piece = &pieces[i];
        assert(all.take(i + 1).drop_last() =~= all.take(i as int));
        assert(all.take(i + 1).last() == piece@);
        if !is_skipped_piece(piece.as_slice()) {
            let part = make_part(piece.as_slice());
            let ghost prev = parts@;
            parts.push(part);
            assert(part_views(parts@) =~= part_views(prev).push(part@));
        }
    }
    assert(all.take(n as int) =~= all);
    parts
}

/// An attachment part with content: its file is written.
pub open spec fn is_written(part: PartModel) -> bool {
    part.is_attachment && part.has_body
}

/// Where the first attachment among `parts` is written; empty where there is none.
pub open spec fn first_attachment_path(parts: Seq<PartModel>) -> Seq<char>
    decreases parts.len(),
{
    if parts.len() == 0 {
        Seq::empty()
    } else if is_written(parts[0]) {
        ATTACHMENT_DIR@ + parts[0].filename
    } else {
        first_attachment_path(parts.drop_first())
    }
}

/// The message that the raw text `data` holds: the header block is what
/// stands before the first blank line, the body what follows it.
pub open spec fn email_model(data: Seq<char>) -> EmailModel {
    let header = split_once(data, DOUBLE_CRLF@).0;
    let body = match split_once(data, DOUBLE_CRLF@).1 {
        Some(b) => body_parts(header, b),
        None => Seq::empty(),
    };
    EmailModel {
        header,
        body,
        message_id: attribute(header, "Message-ID"@),
        references: attribute(header, "References"@),
        sender: attribute(header, "From"@),
        subject: attribute(header, "Subject"@),
        attachment: first_attachment_path(body),
    }
}

/// Every pattern that reading a message compiles.
pub open spec fn reader_patterns_compile() -> bool {
    &&& regex_compiles(HEADER_FIELD_PATTERN@)
    &&& regex_compiles(SIMPLE_VALUE_PATTERN@)
    &&& regex_compiles(FILENAME_PATTERN@)
    &&& regex_compiles(BOUNDARY_PATTERN@)
}

/// Where the attachment named `filename` is written.
pub fn attachment_path(filename: &str) -> (res: String)
    ensures
        res@ == ATTACHMENT_DIR@ + filename@,
{
    let mut path = chars_of(ATTACHMENT_DIR);
    append_chars(&mut path, &chars_of(filename));
    string_of(&path)
}

/// Where the first attachment among `parts` is written.
fn first_attachment(parts: &Vec<EmailPart>) -> (res: String)
    ensures
        res@ == first_attachment_path(part_views(parts@)),
{
    let n = parts.len();
    let ghost all = part_views(parts@);
    assert(all.skip(0) =~= all);
    for i in 0..n
        invariant
            n == parts@.len(),
            all == part_views(parts@),
            first_attachment_path(all) == first_attachment_path(all.skip(i as int)),
    {
        assert(all.skip(i as int)[0] == parts@[i as int]@);
        assert(all.skip(i as int).drop_first() =~= all.skip(i + 1));
        if parts[i].is_attachment && parts[i].has_body {
            return attachment_path(parts[i].filename.as_str());
        }
    }
    String::new()
}

/// Reads the message that the raw text `data` holds: its header block, the
/// parts of its body, and the simplified values of `Message-ID`,
/// `References`, `From` and `Subject`.
pub fn get_email(data: String) -> (res: Email)
    requires
        reader_patterns_compile(),
    ensures
        res@ == email_model(data@),
{
    let (head, rest) = cut_once(&chars_of(data.as_str()), &chars_of(DOUBLE_CRLF));
    let header = string_of(&head);
    let body = match rest {
        Some(b) => get_body_parts(header.clone(), string_of(&b)),
        None => Vec::new(),
    };
    assert(part_views(body@) == email_model(data@).body) by {
        if rest is None {
            assert(part_views(body@) =~= Seq::<PartModel>::empty());
        }
    }
    let message_id = get_email_attribute(header.clone(), "Message-ID");
    let sender = get_email_attribute(header.clone(), "From");
    let subject = get_email_attribute(header.clone(), "Subject");
    let references = get_email_attribute(header.clone(), "References");
    let attachment = first_attachment(&body);
    Email { header, body, message_id, references, sender, subject, attachment }
}

/// Reads a message, having first made sure that every pattern compiles;
/// `None` where one does not.
pub fn parse_message(data: String) -> (res: Option<Email>)
    ensures
        res is Some <==> reader_patterns_compile(),
        res matches Some(e) ==> e@ == email_model(data@),
{
    if compile(HEADER_FIELD_PATTERN).is_err() || compile(SIMPLE_VALUE_PATTERN).is_err()
        || compile(FILENAME_PATTERN).is_err() || compile(BOUNDARY_PATTERN).is_err() {
        return None;
    }
    Some(get_email(data))
}

/// The message asks for a cooptation: its subject, in small letters, says `cooptation`.
pub open spec fn is_cooptation_subject(subject: Seq<char>) -> bool {
    contains(lowercase(subject), "cooptation"@)
}

/// What reading the inbox does after one fetch.
pub enum InboxStep {
    /// The fetch brought no message: stop, with the messages kept so far and
    /// without logging out.
    Stop,
    /// Go on: keep the message where it asks for a cooptation, and mark it
    /// unseen again where in debug mode.
    Process { keep: bool, mark_unseen: bool },
}

/// The decision on one fetch from the inbox: `fetched` is the message read
/// from it, `None` where the fetch brought none.
pub fn inbox_step(fetched: Option<&Email>, debug: bool) -> (res: InboxStep)
    ensures
        fetched is None ==> res is Stop,
        fetched matches Some(e) ==> (res matches InboxStep::Process { keep, mark_unseen } && keep
            == is_cooptation_subject(e.subject@) && mark_unseen == debug),
{
    match fetched {
        None => InboxStep::Stop,
        Some(e) => InboxStep::Process { keep: is_cooptation_request(e), mark_unseen: debug },
    }
}

/// Whether the inbox keeps `email` for processing: its subject, in small
/// letters, holds `cooptation`.
pub fn is_cooptation_request(email: &Email) -> (res: bool)
    ensures
        res == is_cooptation_subject(email.subject@),
{
    contains_chars(&to_lowercase(&chars_of(email.subject.as_str())), &chars_of("cooptation"))
}

#[verifier::external_type_specification]
#[verifier::external_body]
pub struct ExDecodeError(base64::DecodeError);

/// The bytes that the Base64 text `text` stands for as `base64::decode`
/// (standard alphabet, padded) reads it, or `None` where it rejects the text.
pub uninterp spec fn base64_decoded(text: Seq<char>) -> Option<Seq<u8>>;

/// `base64::decode`. Claimed: it succeeds exactly where `base64_decoded` of
/// the text is some byte sequence, and then returns that sequence. (Its
/// panics are all checks against overflow of lengths derived from the
/// input's, which need inputs near `usize::MAX` bytes that no string can have.)
#[verifier::external_body]
fn decode_base64(text: &str) -> (res: Result<Vec<u8>, base64::DecodeError>)
    ensures
        match res {
            Ok(b) => base64_decoded(text@) == Some(b@),
            Err(_) => base64_decoded(text@) is None,
        },
{
    base64::decode(text)
}

/// Why the content of an attachment could not be read.
pub enum AttachmentError {
    /// The content, line breaks taken out, is no valid Base64.
    InvalidBase64,
}

/// An attachment to be written: where, and its bytes.
pub struct AttachmentFile {
    /// The file to write.
    pub path: String,
    /// The decoded bytes, or why they could not be decoded.
    pub contents: Result<Vec<u8>, AttachmentError>,
}

impl View for AttachmentFile {
    type V = (Seq<char>, Option<Seq<u8>>);

    open spec fn view(&self) -> (Seq<char>, Option<Seq<u8>>) {
        (
            self.path@,
            match self.contents {
                Ok(b) => Some(b@),
                Err(_) => None,
            },
        )
    }
}

/// The bytes of an attachment: its content, line breaks taken out, read as Base64.
pub open spec fn decoded_attachment(part: PartModel) -> Option<Seq<u8>> {
    base64_decoded(replace_all(part.content, CRLF@, Seq::empty()))
}

/// The files that the attachments with content among `parts` make, in order:
/// each attachment's path and its decoded bytes.
pub open spec fn attachment_files_of(parts: Seq<PartModel>) -> Seq<(Seq<char>, Option<Seq<u8>>)>
    decreases parts.len(),
{
    if parts.len() == 0 {
        Seq::empty()
    } else if is_written(parts.last()) {
        attachment_files_of(parts.drop_last()).push(
            (ATTACHMENT_DIR@ + parts.last().filename, decoded_attachment(parts.last())),
        )
    } else {
        attachment_files_of(parts.drop_last())
    }
}

/// The bytes of an attachment part: its content, line breaks taken out, decoded from Base64.
pub fn decode_attachment(part: &EmailPart) -> (res: Result<Vec<u8>, AttachmentError>)
    ensures
        match res {
            Ok(b) => decoded_attachment(part@) == Some(b@),
            Err(_) => decoded_attachment(part@) is None,
        },
{
    let text = replace_crlf(part.content.as_str(), "");
    proof {
        reveal_strlit("");
    }
    assert(""@ =~= Seq::<char>::empty());
    match decode_base64(text.as_str()) {
        Ok(b) => Ok(b),
        Err(_) => Err(AttachmentError::InvalidBase64),
    }
}

/// The files to write for the attachments with content among `parts`, in order.
pub fn attachment_files(parts: &Vec<EmailPart>) -> (res: Vec<AttachmentFile>)
    ensures
        res@.map_values(|f: AttachmentFile| f@) == attachment_files_of(part_views(parts@)),
{
    let n = parts.len();
    let ghost all = part_views(parts@);
    let mut files: Vec<AttachmentFile> = Vec::new();
    assert(all.take(0) =~= Seq::<PartModel>::empty());
    for i in 0..n
        invariant
            n == parts@.len(),
            all == part_views(parts@),
            files@.map_values(|f: AttachmentFile| f@) == attachment_files_of(all.take(i as int)),
    {
        let part = &parts[i];
        assert(all.take(i + 1).drop_last() =~= all.take(i as int));
        assert(all.take(i + 1).last() == part@);
        if part.is_attachment && part.has_body {
            let file = AttachmentFile {
                path: attachment_path(part.filename.as_str()),
                contents: decode_attachment(part),
            };
            let ghost prev = files@;
            files.push(file);
            assert(files@.map_values(|f: AttachmentFile| f@) =~= prev.map_values(
                |f: AttachmentFile| f@,
            ).push(file@));
        }
    }
    assert(all.take(n as int) =~= all);
    files
}

/// A message's header block is all that stands before its first blank line,
/// and holds no blank line itself; where there is a blank line, the body
/// parts are read from what follows it, else the message has no parts.
pub proof fn lemma_header_block(data: Seq<char>)
    ensures
        !contains(email_model(data).header, DOUBLE_CRLF@),
        !contains(data, DOUBLE_CRLF@) ==> email_model(data).header == data
            && email_model(data).body.len() == 0,
        contains(data, DOUBLE_CRLF@) ==> exists|rest: Seq<char>|
            data == email_model(data).header + DOUBLE_CRLF@ + rest && email_model(data).body
                == body_parts(email_model(data).header, rest),
{
    reveal_strlit("\r\n\r\n");
    lemma_split_once(data, DOUBLE_CRLF@);
    if let Some(rest) = split_once(data, DOUBLE_CRLF@).1 {
        assert(data == email_model(data).header + DOUBLE_CRLF@ + rest);
    }
}

/// Each part's header block holds no blank line, and only an attachment
/// part has a file name.
pub proof fn lemma_part_headers(pieces: Seq<Seq<char>>)
    ensures
        forall|k: int|
            0 <= k < parts_of(pieces).len() ==> !contains(
                (#[trigger] parts_of(pieces)[k]).header,
                DOUBLE_CRLF@,
            ) && (!parts_of(pieces)[k].is_attachment ==> parts_of(pieces)[k].filename.len()
                == 0),
    decreases pieces.len(),
{
    reveal_strlit("\r\n\r\n");
    if pieces.len() > 0 {
        let front = parts_of(pieces.drop_last());
        lemma_part_headers(pieces.drop_last());
        lemma_split_once(pieces.last(), DOUBLE_CRLF@);
        let all = parts_of(pieces);
        assert forall|k: int| 0 <= k < all.len() implies !contains(
            (#[trigger] all[k]).header,
            DOUBLE_CRLF@,
        ) && (!all[k].is_attachment ==> all[k].filename.len() == 0) by {
            if k < front.len() {
                assert(all[k] == front[k]);
            } else {
                assert(all[k] == part_model(pieces.last()));
            }
        }
    }
}

/// The parts of a body hold no blank line in their header blocks, whatever
/// the message.
pub proof fn lemma_body_part_headers(headers: Seq<char>, body: Seq<char>)
    ensures
        forall|k: int|
            0 <= k < body_parts(headers, body).len() ==> !contains(
                (#[trigger] body_parts(headers, body)[k]).header,
                DOUBLE_CRLF@,
            ),
{
    let boundary = boundary_of(headers);
    lemma_part_headers(split_pieces(prefix_before(body, end_boundary(boundary)), boundary));
}

/// Whether a message asks for a cooptation does not depend on the case of
/// the letters in its subject.
pub proof fn lemma_subject_case(subject: Seq<char>)
    ensures
        is_cooptation_subject(lowercase(subject)) == is_cooptation_subject(subject),
{
    lemma_lowercase_idempotent(subject);
}

/// A message names where its attachment is written exactly when one of its
/// parts is an attachment with content.
pub proof fn lemma_attachment_presence(parts: Seq<PartModel>)
    ensures
        (first_attachment_path(parts).len() == 0) <==> (forall|k: int|
            0 <= k < parts.len() ==> !is_written(#[trigger] parts[k])),
    decreases parts.len(),
{
    reveal_strlit("var/tmp/");
    if parts.len() > 0 {
        let rest = parts.drop_first();
        lemma_attachment_presence(rest);
        if !is_written(parts[0]) {
            assert((forall|k: int| 0 <= k < parts.len() ==> !is_written(#[trigger] parts[k]))
                <==> (forall|k: int| 0 <= k < rest.len() ==> !is_written(#[trigger] rest[k])))
                by {
                if forall|k: int| 0 <= k < rest.len() ==> !is_written(#[trigger] rest[k]) {
                    assert forall|k: int| 0 <= k < parts.len() implies !is_written(
                        #[trigger] parts[k],
                    ) by {
                        if k > 0 {
                            assert(parts[k] == rest[k - 1]);
                        }
                    }
                }
                if forall|k: int| 0 <= k < parts.len() ==> !is_written(#[trigger] parts[k]) {
                    assert forall|k: int| 0 <= k < rest.len() implies !is_written(
                        #[trigger] rest[k],
                    ) by {
                        assert(rest[k] == parts[k + 1]);
                    }
                }
            }
        }
    }
}

/// Nothing from the closing delimiter on has a part in the body parts:
/// where the delimiter first occurs right after `p`, the parts of
/// `p`, the delimiter and any `x` are those of `p` alone.
pub proof fn lemma_body_ends_at_delimiter(headers: Seq<char>, p: Seq<char>, x: Seq<char>)
    requires
        find_from(
            p + end_boundary(boundary_of(headers)),
            end_boundary(boundary_of(headers)),
            0,
        ) == Some(p.len() as int),
    ensures
        body_parts(headers, p + end_boundary(boundary_of(headers)) + x) == body_parts(headers, p),
{
    reveal_strlit("\r\n--");
    let e = end_boundary(boundary_of(headers));
    assert(e.len() >= 4);
    lemma_first_occurrence_after(p, e, x);
}

/// The header block and the header fields of a message do not depend on
/// what follows its first blank line.
pub proof fn lemma_header_ignores_body(h: Seq<char>, x: Seq<char>)
    requires
        find_from(h + DOUBLE_CRLF@, DOUBLE_CRLF@, 0) == Some(h.len() as int),
    ensures
        email_model(h + DOUBLE_CRLF@ + x).header == h,
        email_model(h + DOUBLE_CRLF@ + x).message_id == attribute(h, "Message-ID"@),
        email_model(h + DOUBLE_CRLF@ + x).references == attribute(h, "References"@),
        email_model(h + DOUBLE_CRLF@ + x).sender == attribute(h, "From"@),
        email_model(h + DOUBLE_CRLF@ + x).subject == attribute(h, "Subject"@),
{
    reveal_strlit("\r\n\r\n");
    lemma_first_occurrence_after(h, DOUBLE_CRLF@, x);
}

/// The boundary is read from the text before the first blank line only.
pub proof fn lemma_boundary_ignores_body(a: Seq<char>, x: Seq<char>)
    requires
        find_from(a + DOUBLE_CRLF@, DOUBLE_CRLF@, 0) == Some(a.len() as int),
    ensures
        boundary_of(a + DOUBLE_CRLF@ + x) == boundary_of(a),
{
    reveal_strlit("\r\n\r\n");
    lemma_first_occurrence_after(a, DOUBLE_CRLF@, x);
}

/// A body piece with a blank line is its part's header block, the blank
/// line and its part's content, in that order, and the header block holds no
/// blank line: the content is everything after the first blank line, blank
/// lines inside it kept. A piece without a blank line is all header.
pub proof fn lemma_part_is_its_piece(piece: Seq<char>)
    ensures
        (exists|k: int| #[trigger] occurs_at(piece, DOUBLE_CRLF@, k)) ==> {
            &&& part_model(piece).has_body
            &&& part_model(piece).header + DOUBLE_CRLF@ + part_model(piece).content == piece
            &&& forall|k: int| !#[trigger] occurs_at(part_model(piece).header, DOUBLE_CRLF@, k)
        },
        !(exists|k: int| #[trigger] occurs_at(piece, DOUBLE_CRLF@, k)) ==> {
            &&& !part_model(piece).has_body
            &&& part_model(piece).header == piece
            &&& part_model(piece).content.len() == 0
        },
{
    reveal_strlit("\r\n\r\n");
    lemma_split_once(piece, DOUBLE_CRLF@);
    lemma_contains(piece, DOUBLE_CRLF@);
    lemma_contains(part_model(piece).header, DOUBLE_CRLF@);
}

/// The parts of the pieces of a body are, in order, the parts of the pieces
/// that are neither preamble nor closing, one for each.
pub proof fn lemma_parts_of_pieces(pieces: Seq<Seq<char>>)
    ensures
        parts_of(pieces) == pieces.filter(|p: Seq<char>| !skipped_piece(p)).map_values(
            |p: Seq<char>| part_model(p),
        ),
    decreases pieces.len(),
{
    reveal_with_fuel(Seq::<_>::filter, 1);
    if pieces.len() > 0 {
        lemma_parts_of_pieces(pieces.drop_last());
        let kept = pieces.drop_last().filter(|p: Seq<char>| !skipped_piece(p));
        assert(kept.push(pieces.last()).map_values(|p: Seq<char>| part_model(p)) =~= kept.map_values(
            |p: Seq<char>| part_model(p),
        ).push(part_model(pieces.last())));
    } else {
        assert(pieces.filter(|p: Seq<char>| !skipped_piece(p)).map_values(|p: Seq<char>| part_model(p))
            =~= Seq::<PartModel>::empty());
    }
}

/// The bytes of an attachment are the Base64 reading of its content with
/// every line break taken out: the content is its line-break-free lines
/// joined by line breaks, and those lines, written one after the other, are
/// what is decoded.
pub proof fn lemma_attachment_bytes(part: PartModel)
    ensures
        part.content == join(split_pieces(part.content, CRLF@), CRLF@),
        forall|k: int|
            0 <= k < split_pieces(part.content, CRLF@).len() ==> !contains(
                #[trigger] split_pieces(part.content, CRLF@)[k],
                CRLF@,
            ),
        decoded_attachment(part) == base64_decoded(
            join(split_pieces(part.content, CRLF@), Seq::empty()),
        ),
{
    reveal_strlit("\r\n");
    lemma_split_join(part.content, CRLF@);
    lemma_replace_is_split_join(part.content, CRLF@, Seq::empty());
}

/// A subject asks for a cooptation exactly when `cooptation` occurs at some
/// place of its small-letter form; so it does wherever the word stands.
pub proof fn lemma_cooptation_anywhere(subject: Seq<char>, a: Seq<char>, b: Seq<char>)
    ensures
        is_cooptation_subject(subject) <==> exists|k: int|
            #[trigger] occurs_at(lowercase(subject), "cooptation"@, k),
        is_cooptation_subject(a + "cooptation"@ + b),
{
    reveal_strlit("cooptation");
    lemma_contains(lowercase(subject), "cooptation"@);
    let w = "cooptation"@;
    let s = a + w + b;
    let l = lowercase(s);
    assert(w.len() == 10);
    assert forall|i: int| 0 <= i < 10 implies #[trigger] l[a.len() + i] == w[i] by {
        assert(s[a.len() + i] == w[i]);
        assert(w[0] == 'c' && w[1] == 'o' && w[2] == 'o' && w[3] == 'p' && w[4] == 't' && w[5]
            == 'a' && w[6] == 't' && w[7] == 'i' && w[8] == 'o' && w[9] == 'n');
    }
    assert(l.subrange(a.len() as int, (a.len() + 10) as int) =~= w);
    assert(occurs_at(l, w, a.len() as int));
    lemma_contains(l, w);
}

/// The files written for a message are, in order, one for each attachment
/// part with content: under the attachment directory by its file name, with
/// its decoded bytes; no other part gives a file.
pub proof fn lemma_attachment_files_of_parts(parts: Seq<PartModel>)
    ensures
        attachment_files_of(parts) == parts.filter(|p: PartModel| p.is_attachment && p.has_body).map_values(
            |p: PartModel| (ATTACHMENT_DIR@ + p.filename, decoded_attachment(p)),
        ),
    decreases parts.len(),
{
    reveal_with_fuel(Seq::<_>::filter, 1);
    if parts.len() > 0 {
        lemma_attachment_files_of_parts(parts.drop_last());
        let kept = parts.drop_last().filter(|p: PartModel| p.is_attachment && p.has_body);
        assert(kept.push(parts.last()).map_values(
            |p: PartModel| (ATTACHMENT_DIR@ + p.filename, decoded_attachment(p)),
        ) =~= kept.map_values(
            |p: PartModel| (ATTACHMENT_DIR@ + p.filename, decoded_attachment(p)),
        ).push((ATTACHMENT_DIR@ + parts.last().filename, decoded_attachment(parts.last()))));
    } else {
        assert(parts.filter(|p: PartModel| p.is_attachment && p.has_body).map_values(
            |p: PartModel| (ATTACHMENT_DIR@ + p.filename, decoded_attachment(p)),
        ) =~= Seq::<(Seq<char>, Option<Seq<u8>>)>::empty());
    }
}

} // verus!
