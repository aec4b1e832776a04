use email_assistant::api::cooptation::{cooptation_form_fields, cooptation_post_url};
use email_assistant::api::profiling::{get, get_body_text, get_purpose, text_from_fields};
use email_assistant::reader::{find_field, get_email, is_cooptation_request, Email, EmailPart};

fn email_with(subject: &str, parts: Vec<EmailPart>) -> Email {
    Email {
        header: String::new(),
        body: parts,
        message_id: String::new(),
        references: String::new(),
        sender: String::new(),
        subject: subject.to_string(),
        attachment: String::new(),
    }
}

fn part(header: &str, content: &str, is_attachment: bool) -> EmailPart {
    EmailPart {
        header: header.to_string(),
        content: content.to_string(),
        is_attachment,
        filename: String::new(),
        has_body: true,
    }
}

#[test]
fn fixed_profile_values() {
    let email = email_with("x", vec![]);
    assert_eq!(get(&email, "branch").unwrap(), "Davidson Paris");
    assert_eq!(get(&email, "firstname").unwrap(), "John");
    assert_eq!(get(&email, "lastname").unwrap(), "Doe");
    assert_eq!(get(&email, "email").unwrap(), "me@domain.tld");
    assert_eq!(get(&email, "phone").unwrap(), "01 02 03 04 05");
    assert_eq!(get(&email, "nickname").unwrap(), "");
}

#[test]
fn relation_is_plain_text_body() {
    let email = email_with("x", vec![part("Content-Type: text/plain; charset=utf-8", "Hi there", false)]);
    assert_eq!(get(&email, "relation").unwrap(), "Hi there");
}

#[test]
fn relation_of_html_body() {
    let email = email_with("x", vec![part("CONTENT-TYPE: multipart/alternative; boundary=x", "<p>", false)]);
    assert_eq!(
        get_body_text(&email).unwrap(),
        "// TODO text/html message should be converted into text/plain"
    );
}

#[test]
fn relation_not_found_cases() {
    let none = "// TODO Message not found";
    assert_eq!(get_body_text(&email_with("x", vec![])).unwrap(), none);
    assert_eq!(get_body_text(&email_with("x", vec![part("Content-Type: text/plain", "a", true)])).unwrap(), none);
    assert_eq!(get_body_text(&email_with("x", vec![part("Content-Type: image/png", "a", false)])).unwrap(), none);
}

#[test]
fn relation_is_first_text_part() {
    let email = email_with(
        "x",
        vec![
            part("Content-Disposition: attachment", "QUJD", true),
            part("X-Other: y", "a", false),
            part("Content-Type: text/plain", "Hi", false),
            part("Content-Type: text/plain", "later", false),
        ],
    );
    assert_eq!(get_body_text(&email).unwrap(), "Hi");
    assert_eq!(get(&email, "relation").unwrap(), "Hi");
}

#[test]
fn relation_of_html_part() {
    let email = email_with("x", vec![part("Content-Type: text/html; charset=utf-8", "<p>Hi</p>", false)]);
    assert_eq!(get_body_text(&email).unwrap(), "<p>Hi</p>");
}

#[test]
fn text_from_fields_reads_rows_in_order() {
    let rows = vec![
        vec![Some("h".to_string()), Some("Content-Type".to_string()), Some("image/png".to_string())],
        vec![Some("h".to_string()), Some("content-type".to_string()), Some("text/plain".to_string())],
    ];
    assert_eq!(text_from_fields(&rows, &"body".to_string()), Some("body".to_string()));
    assert_eq!(text_from_fields(&vec![], &"body".to_string()), None);
}

#[test]
fn purpose_follows_subject() {
    assert_eq!(get_purpose(&email_with("Re: CoOptation", vec![])).unwrap(), "cooptation");
    assert_eq!(get_purpose(&email_with("Hello", vec![])).unwrap(), "");
    assert_eq!(get(&email_with("cooptation", vec![]), "purpose").unwrap(), "cooptation");
}

#[test]
fn form_fields_for_request() {
    let email = get_email(
        "Subject: cooptation\r\nContent-Type: multipart/mixed; boundary=\"--B1\"\r\n\r\nThis is a multi-part message in MIME format.\r\n----B1\r\nContent-Type: text/plain\r\n\r\nJane is great\r\n----B1--\r\n"
            .to_string(),
    );
    let fields = cooptation_form_fields(&email, 42).expect("pattern compiles");
    let expected: Vec<(String, String)> = vec![
        ("branch", "Davidson Paris"),
        ("firstname", "John"),
        ("lastname", "Doe"),
        ("email", "me@domain.tld"),
        ("relation", "Jane is great"),
        ("phone", "01 02 03 04 05"),
        ("userid", "42"),
    ]
    .into_iter()
    .map(|(a, b)| (a.to_string(), b.to_string()))
    .collect();
    assert_eq!(fields, expected);
}

#[test]
fn piece_before_first_boundary_is_skipped_over_for_text() {
    let email = get_email(
        "Subject: x\r\nContent-Type: multipart/mixed; boundary=\"--B1\"\r\n\r\n----B1\r\nContent-Type: text/plain\r\n\r\nJane\r\n----B1--\r\n"
            .to_string(),
    );
    assert_eq!(email.body.len(), 2);
    assert_eq!(email.body[0].header, "--");
    assert!(!email.body[0].has_body);
    assert_eq!(email.body[1].content, "Jane");
    assert_eq!(get(&email, "relation").unwrap(), "Jane");
}

#[test]
fn cooptation_url_under_root() {
    assert_eq!(cooptation_post_url("https://api.example/"), "https://api.example/api/test/cooptation");
}

#[test]
fn purpose_agrees_with_inbox_filter() {
    for subject in ["Cooptation", "re: COOPTATION please", "hello", "", "co-optation"] {
        let email = email_with(subject, vec![]);
        let purpose = get_purpose(&email).unwrap();
        assert_eq!(purpose == "cooptation", is_cooptation_request(&email));
        assert!(purpose == "cooptation" || purpose.is_empty());
    }
}

#[test]
fn find_field_takes_first_match() {
    let rows = vec![
        vec![Some("From: a".to_string()), Some("From".to_string()), Some("a".to_string())],
        vec![Some("To: b".to_string()), Some("To".to_string()), Some("b".to_string())],
        vec![Some("From: c".to_string()), Some("From".to_string()), Some("c".to_string())],
    ];
    assert_eq!(find_field(&rows, "From"), Some("a".to_string()));
    assert_eq!(find_field(&rows, "To"), Some("b".to_string()));
    assert_eq!(find_field(&rows, "Cc"), None);
}

#[test]
fn alternative_before_html_in_one_line() {
    let email = email_with(
        "x",
        vec![part("Content-Type: multipart/alternative; type=text/html", "<p>raw</p>", false)],
    );
    assert_eq!(
        get_body_text(&email).unwrap(),
        "// TODO text/html message should be converted into text/plain"
    );
    let plain_first = email_with("x", vec![part("Content-Type: text/plain; alt=multipart/alternative", "p", false)]);
    assert_eq!(get_body_text(&plain_first).unwrap(), "p");
}

#[test]
fn profile_relation_and_purpose_are_their_functions() {
    let email = email_with("Cooptation", vec![part("Content-Type: text/plain", "T", false)]);
    assert_eq!(get(&email, "relation").unwrap(), get_body_text(&email).unwrap());
    assert_eq!(get(&email, "purpose").unwrap(), get_purpose(&email).unwrap());
}
