use email_assistant::api::eos::{is_identified, worker_lookup_url};
use email_assistant::api::{bearer_authorization, is_ok_status, login_request_body, login_url};
use email_assistant::receipt::{
    build_receipt, receipt_message_text, references_header, ReceiptMessage, RECEIPT_BODY,
};
use email_assistant::reader::get_email;

#[test]
fn login_request_parts() {
    assert_eq!(login_url("https://eos.example/"), "https://eos.example/api/login_check");
    assert_eq!(
        login_request_body("alice", "SECRET-REDACTED"),
        "{ \"_username\": \"alice\", \"_password\": \"SECRET-REDACTED\" }"
    );
    assert_eq!(bearer_authorization("tok"), "Bearer tok");
}

#[test]
fn status_and_identity() {
    assert!(is_ok_status(200));
    assert!(!is_ok_status(401));
    assert!(!is_ok_status(404));
    assert!(is_identified(17));
    assert!(!is_identified(0));
}

#[test]
fn worker_lookup() {
    assert_eq!(
        worker_lookup_url("https://eos.example/", "a@b.c"),
        "https://eos.example/api/getWorkerbyEmail/a@b.c/exec"
    );
}

#[test]
fn references_of_reply() {
    assert_eq!(references_header("", "id1@x"), "<id1@x>");
    assert_eq!(references_header("ref0@x", "id1@x"), "<ref0@x> <id1@x>");
}

#[test]
fn receipt_for_message() {
    let email = get_email("From: Ann <ann@x.org>\r\nSubject: cooptation\r\nMessage-ID: <m1@x.org>\r\nReferences: <r0@x.org>".to_string());
    let r = build_receipt(&email, "bot@x.org".to_string(), None);
    assert_eq!(r.sender, "bot@x.org");
    assert_eq!(r.recipient, "ann@x.org");
    assert_eq!(r.subject, "Re: cooptation");
    assert_eq!(r.body, RECEIPT_BODY);
    assert_eq!(r.in_reply_to, "<m1@x.org>");
    assert_eq!(r.references, "<r0@x.org> <m1@x.org>");
    let d = build_receipt(&email, "bot@x.org".to_string(), Some("dev@x.org".to_string()));
    assert_eq!(d.recipient, "dev@x.org");
}

#[test]
fn receipt_text_layout() {
    let m = ReceiptMessage {
        sender: "s".to_string(),
        recipient: "r".to_string(),
        subject: "Re: x".to_string(),
        body: "Body".to_string(),
        in_reply_to: "<i>".to_string(),
        references: "<i>".to_string(),
    };
    let expected = [
        "In-reply-to: <i>".to_string(),
        "References: <i>".to_string(),
        "Subject: Re: x".to_string(),
        "\r\n".to_string(),
        "Body".to_string(),
        "\r\n\r\n".to_string(),
    ]
    .join("\r\n");
    assert_eq!(receipt_message_text(&m), expected);
    assert_eq!(receipt_message_text(&m), "In-reply-to: <i>\r\nReferences: <i>\r\nSubject: Re: x\r\n\r\n\r\nBody\r\n\r\n\r\n");
}
