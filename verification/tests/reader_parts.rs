use email_assistant::reader::{
    attachment_files, attachment_path, decode_attachment, get_attachment_filename, get_body_parts,
    get_boundary, get_email, get_email_attribute, get_simple_value, get_simpler_body,
    inbox_step, is_cooptation_request, parse_message, AttachmentError, EmailPart, InboxStep,
};

const SAMPLE: &str = "From: John Doe <john.doe@foo.bar>\r\n\
Subject: Cooptation request\r\n\
Message-ID: <abc123@mail.foo.bar>\r\n\
Content-Type: multipart/mixed; boundary=\"------------XYZ789\"\r\n\
\r\n\
This is a multi-part message in MIME format.\r\n\
--------------XYZ789\r\n\
Content-Type: text/plain; charset=utf-8\r\n\
\r\n\
Hello, please coopt Jane.\r\n\
--------------XYZ789\r\n\
Content-Type: application/pdf; name=\"cv.pdf\"\r\n\
Content-Disposition: attachment; filename=\"cv.pdf\"\r\n\
Content-Transfer-Encoding: base64\r\n\
\r\n\
SGVs\r\nbG8=\r\n\
--------------XYZ789--\r\n";

#[test]
fn simple_value_of_display_name() {
    assert_eq!(get_simple_value("John Doe <john.doe@foo.bar>".to_string()), "john.doe@foo.bar");
}

#[test]
fn simple_value_of_message_id_line() {
    assert_eq!(
        get_simple_value("Message-ID: <989bac4f-277b-84a7-5601-8975e35dfba5@davidson.fr>".to_string()),
        "989bac4f-277b-84a7-5601-8975e35dfba5@davidson.fr"
    );
}

#[test]
fn simple_value_without_address_is_unchanged() {
    assert_eq!(get_simple_value("Hello there".to_string()), "Hello there");
}

#[test]
fn attribute_found_and_missing() {
    let header = "From: John <j@x.org>\r\nSubject: Hi\r\nFrom: Other <o@y.org>".to_string();
    assert_eq!(get_email_attribute(header.clone(), "From"), "j@x.org");
    assert_eq!(get_email_attribute(header.clone(), "Subject"), "Hi");
    assert_eq!(get_email_attribute(header.clone(), "References"), "");
    assert_eq!(get_email_attribute(header, "from"), "");
}

#[test]
fn simpler_body_cuts_at_end_boundary() {
    assert_eq!(get_simpler_body("abc\r\n--B--\r\nrest".to_string(), "\r\n--B--\r\n"), "abc");
    assert_eq!(get_simpler_body("no end here".to_string(), "\r\n--B--\r\n"), "no end here");
}

#[test]
fn boundary_from_headers() {
    let headers = "Subject: x\r\nContent-Type: multipart/mixed;\r\n boundary=\"------------ABC123\"".to_string();
    assert_eq!(get_boundary(headers), "------------ABC123");
}

#[test]
fn boundary_without_parameter_is_first_block() {
    assert_eq!(get_boundary("Subject: x\r\nTo: y\r\n\r\nbody".to_string()), "Subject: x To: y");
    assert_eq!(get_boundary(String::new()), "");
}

#[test]
fn attachment_filename_from_header() {
    let header = "Content-Type: application/pdf; name=\"cv.pdf\"\r\nContent-Disposition: attachment;\r\n filename=\"resume.pdf\"".to_string();
    assert_eq!(get_attachment_filename(header), "resume.pdf");
}

#[test]
fn body_parts_of_sample() {
    let (headers, body) = SAMPLE.split_once("\r\n\r\n").unwrap();
    let parts = get_body_parts(headers.to_string(), body.to_string());
    assert_eq!(parts.len(), 2);
    assert_eq!(parts[0].header, "\r\nContent-Type: text/plain; charset=utf-8");
    assert_eq!(parts[0].content, "Hello, please coopt Jane.\r\n--");
    assert!(!parts[0].is_attachment);
    assert_eq!(parts[0].filename, "");
    assert!(parts[1].is_attachment);
    assert_eq!(parts[1].filename, "cv.pdf");
    assert_eq!(parts[1].content, "SGVs\r\nbG8=");
    for p in &parts {
        assert!(!p.header.contains("\r\n\r\n"));
    }
}

#[test]
fn email_of_sample() {
    let email = get_email(SAMPLE.to_string());
    assert_eq!(email.sender, "john.doe@foo.bar");
    assert_eq!(email.subject, "Cooptation request");
    assert_eq!(email.message_id, "abc123@mail.foo.bar");
    assert_eq!(email.references, "");
    assert_eq!(email.attachment, "var/tmp/cv.pdf");
    assert_eq!(email.body.len(), 2);
    assert!(!email.header.contains("\r\n\r\n"));
    assert!(SAMPLE.starts_with(&format!("{}\r\n\r\n", email.header)));
    assert!(is_cooptation_request(&email));
}

#[test]
fn email_without_blank_line_has_no_parts() {
    let email = get_email("Subject: Only a header\r\nFrom: a@b.c".to_string());
    assert_eq!(email.header, "Subject: Only a header\r\nFrom: a@b.c");
    assert!(email.body.is_empty());
    assert_eq!(email.subject, "Only a header");
    assert_eq!(email.sender, "a@b.c");
    assert_eq!(email.attachment, "");
}

#[test]
fn parse_message_reads_sample() {
    let email = parse_message(SAMPLE.to_string()).expect("patterns compile");
    assert_eq!(email.sender, "john.doe@foo.bar");
}

#[test]
fn cooptation_filter_ignores_case() {
    let mut email = get_email("Subject: COOPTATION of Jane".to_string());
    assert!(is_cooptation_request(&email));
    email.subject = "Hello".to_string();
    assert!(!is_cooptation_request(&email));
}

#[test]
fn attachment_is_decoded_without_line_breaks() {
    let email = get_email(SAMPLE.to_string());
    let files = attachment_files(&email.body);
    assert_eq!(files.len(), 1);
    assert_eq!(files[0].path, "var/tmp/cv.pdf");
    assert_eq!(files[0].contents.as_ref().ok(), Some(&b"Hello".to_vec()));
}

#[test]
fn invalid_base64_is_an_error() {
    let part = EmailPart {
        header: String::new(),
        content: "@@@@".to_string(),
        is_attachment: true,
        filename: "x".to_string(),
        has_body: true,
    };
    assert!(matches!(decode_attachment(&part), Err(AttachmentError::InvalidBase64)));
}

#[test]
fn attachment_path_is_under_tmp() {
    assert_eq!(attachment_path("cv.pdf"), "var/tmp/cv.pdf");
}

#[test]
fn boundary_quoted_or_bare() {
    assert_eq!(get_boundary("Content-Type: multipart/mixed; boundary=\"abc123\"".to_string()), "abc123");
    assert_eq!(get_boundary("Content-Type: multipart/mixed; boundary=abc123; charset=x".to_string()), "abc123");
}

#[test]
fn attachment_without_content_writes_no_file() {
    let data = "Subject: x\r\nContent-Type: multipart/mixed; boundary=\"B1\"\r\n\r\n\
This is a multi-part message in MIME format.\r\n--B1\r\n\
Content-Disposition: attachment; filename=\"empty.bin\"\r\n--B1\r\n\
Content-Disposition: attachment; filename=\"a.txt\"\r\n\r\nSGk=\r\n--B1--\r\n";
    let email = get_email(data.to_string());
    assert_eq!(email.body.len(), 2);
    assert!(email.body[0].is_attachment);
    assert!(!email.body[0].has_body);
    assert_eq!(email.body[0].filename, "empty.bin");
    let files = attachment_files(&email.body);
    assert_eq!(files.len(), 1);
    assert_eq!(files[0].path, "var/tmp/a.txt");
    assert_eq!(files[0].contents.as_ref().ok(), Some(&b"Hi".to_vec()));
    assert_eq!(email.attachment, "var/tmp/a.txt");
}

#[test]
fn nothing_after_closing_delimiter_counts() {
    let (headers, body) = SAMPLE.split_once("\r\n\r\n").unwrap();
    let cut = body.find("\r\n--------------XYZ789--\r\n").unwrap();
    let p = &body[..cut];
    let e = "\r\n--------------XYZ789--\r\n";
    let a = get_body_parts(headers.to_string(), format!("{}{}Subject: junk\r\n--------------XYZ789\r\n", p, e));
    let b = get_body_parts(headers.to_string(), p.to_string());
    assert_eq!(a.len(), b.len());
    for (x, y) in a.iter().zip(b.iter()) {
        assert_eq!(x.header, y.header);
        assert_eq!(x.content, y.content);
        assert_eq!(x.filename, y.filename);
    }
}

#[test]
fn header_fields_ignore_body() {
    let h = "From: A <a@x.org>\r\nSubject: cooptation\r\nMessage-ID: <m@x.org>";
    let one = get_email(format!("{}\r\n\r\nFrom: B <b@y.org>\r\nSubject: other", h));
    let two = get_email(format!("{}\r\n\r\nplain body", h));
    assert_eq!(one.header, h);
    assert_eq!(one.sender, "a@x.org");
    assert_eq!(one.sender, two.sender);
    assert_eq!(one.subject, two.subject);
    assert_eq!(one.message_id, two.message_id);
    assert_eq!(one.references, two.references);
    assert_eq!(
        get_boundary(format!("{}\r\n\r\nboundary=\"zzz\"", h)),
        get_boundary(h.to_string())
    );
}

#[test]
fn inbox_steps() {
    assert!(matches!(inbox_step(None, true), InboxStep::Stop));
    let request = get_email("Subject: Cooptation".to_string());
    assert!(matches!(inbox_step(Some(&request), false), InboxStep::Process { keep: true, mark_unseen: false }));
    let other = get_email("Subject: Hello".to_string());
    assert!(matches!(inbox_step(Some(&other), true), InboxStep::Process { keep: false, mark_unseen: true }));
}
