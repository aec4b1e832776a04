//! The receipt that answers each processed request.
use vstd::prelude::*;

use crate::reader::{Email, CRLF, DOUBLE_CRLF};
use crate::text::{concatenate, join};

verus! {

/// How to reach the SMTP server.
pub struct SmtpOptions {
    pub host: String,
    pub username: String,
    pub password: String,
    pub port: u16,
}

/// A receipt to send.
pub struct ReceiptMessage {
    pub sender: String,
    pub recipient: String,
    pub subject: String,
    pub body: String,
    pub in_reply_to: String,
    pub references: String,
}

/// What a [`ReceiptMessage`] holds, as character sequences.
pub struct ReceiptModel {
    pub sender: Seq<char>,
    pub recipient: Seq<char>,
    pub subject: Seq<char>,
    pub body: Seq<char>,
    pub in_reply_to: Seq<char>,
    pub references: Seq<char>,
}

impl View for ReceiptMessage {
    type V = ReceiptModel;

    open spec fn view(&self) -> ReceiptModel {
        ReceiptModel {
            sender: self.sender@,
            recipient: self.recipient@,
            subject: self.subject@,
            body: self.body@,
            in_reply_to: self.in_reply_to@,
            references: self.references@,
        }
    }
}

/// The text of every receipt.
pub const RECEIPT_BODY: &'static str = "Your request was received and will be processed shortly.\r\n\r\nBest regards\r\n\r\n--\r\nQuick Ass, your assistant";

/// The lines of a receipt's raw text: its `In-reply-to`, `References` and
/// `Subject` headers, a line break, the body and a blank line.
pub open spec fn receipt_lines(m: ReceiptModel) -> Seq<Seq<char>> {
    seq![
        "In-reply-to: "@ + m.in_reply_to,
        "References: "@ + m.references,
        "Subject: "@ + m.subject,
        CRLF@,
        m.body,
        DOUBLE_CRLF@,
    ]
}

/// The raw text of a receipt: its lines joined by line breaks.
pub open spec fn receipt_text(m: ReceiptModel) -> Seq<char> {
    join(receipt_lines(m), CRLF@)
}

/// `<id>`.
pub open spec fn angle(id: Seq<char>) -> Seq<char> {
    "<"@ + id + ">"@
}

/// The `References` of a reply: the message's own id where it names none,
/// else its references and then its id.
pub open spec fn reply_references(references: Seq<char>, message_id: Seq<char>) -> Seq<char> {
    if references.len() == 0 {
        angle(message_id)
    } else {
        angle(references) + " "@ + angle(message_id)
    }
}

/// The receipt that answers `message`: sent from `sender` to the message's
/// sender, or to `debug_recipient` where one is given.
pub open spec fn receipt_for(
    message: Seq<char>,
    subject: Seq<char>,
    references: Seq<char>,
    from: Seq<char>,
    sender: Seq<char>,
    debug_recipient: Option<Seq<char>>,
) -> ReceiptModel {
    ReceiptModel {
        sender,
        recipient: match debug_recipient {
            Some(r) => r,
            None => from,
        },
        subject: "Re: "@ + subject,
        body: RECEIPT_BODY@,
        in_reply_to: angle(message),
        references: reply_references(references, message),
    }
}

/// `<id>`.
fn angled(id: &str) -> (res: String)
    ensures
        res@ == angle(id@),
{
    let s = concatenate("<", id);
    concatenate(s.as_str(), ">")
}

/// The `References` header of a reply to a message with these references and this id.
pub fn references_header(references: &str, message_id: &str) -> (res: String)
    ensures
        res@ == reply_references(references@, message_id@),
{
    if references.is_empty() {
        angled(message_id)
    } else {
        let s = concatenate(angled(references).as_str(), " ");
        concatenate(s.as_str(), angled(message_id).as_str())
    }
}

/// The receipt that answers `message`, sent from `sender`; in debug mode to
/// `debug_recipient`, else to the message's sender.
pub fn build_receipt(message: &Email, sender: String, debug_recipient: Option<String>) -> (res:
    ReceiptMessage)
    ensures
        res@ == receipt_for(
            message.message_id@,
            message.subject@,
            message.references@,
            message.sender@,
            sender@,
            match debug_recipient {
                Some(r) => Some(r@),
                None => None,
            },
        ),
{
    let recipient = match debug_recipient {
        Some(r) => r,
        None => message.sender.clone(),
    };
    ReceiptMessage {
        sender,
        recipient,
        subject: concatenate("Re: ", message.subject.as_str()),
        body: RECEIPT_BODY.to_owned(),
        in_reply_to: angled(message.message_id.as_str()),
        references: references_header(message.references.as_str(), message.message_id.as_str()),
    }
}

/// The raw text of the receipt as it is sent.
pub fn receipt_message_text(m: &ReceiptMessage) -> (res: String)
    ensures
        res@ == receipt_text(m@),
{
    let s = concatenate("In-reply-to: ", m.in_reply_to.as_str());
    let s = concatenate(s.as_str(), CRLF);
    let s = concatenate(s.as_str(), "References: ");
    let s = concatenate(s.as_str(), m.references.as_str());
    let s = concatenate(s.as_str(), CRLF);
    let s = concatenate(s.as_str(), "Subject: ");
    let s = concatenate(s.as_str(), m.subject.as_str());
    let s = concatenate(s.as_str(), CRLF);
    let s = concatenate(s.as_str(), CRLF);
    let s = concatenate(s.as_str(), CRLF);
    let s = concatenate(s.as_str(), m.body.as_str());
    let s = concatenate(s.as_str(), CRLF);
    let s = concatenate(s.as_str(), DOUBLE_CRLF);
    proof {
        let lines = receipt_lines(m@);
        reveal_with_fuel(join, 7);
        assert(lines.drop_first().drop_first().drop_first().drop_first().drop_first() =~= seq![lines[5]]);
        assert(lines.drop_first().drop_first().drop_first().drop_first() =~= seq![lines[4], lines[5]]);
        assert(lines.drop_first().drop_first().drop_first() =~= seq![lines[3], lines[4], lines[5]]);
        assert(lines.drop_first().drop_first() =~= seq![lines[2], lines[3], lines[4], lines[5]]);
        assert(lines.drop_first() =~= seq![lines[1], lines[2], lines[3], lines[4], lines[5]]);
        assert(s@ =~= receipt_text(m@));
    }
    s
}

/// A receipt is a reply: it answers `<id>`, its subject is `Re: ` and the
/// message's, and its references are the message's own id alone where the
/// message has no references, else the message's references and then its id.
pub proof fn lemma_receipt_is_reply(
    message: Seq<char>,
    subject: Seq<char>,
    references: Seq<char>,
    from: Seq<char>,
    sender: Seq<char>,
    debug_recipient: Option<Seq<char>>,
)
    ensures
        ({
            let r = receipt_for(message, subject, references, from, sender, debug_recipient);
            &&& r.in_reply_to == "<"@ + message + ">"@
            &&& r.subject == "Re: "@ + subject
            &&& references.len() == 0 ==> r.references == r.in_reply_to
            &&& references.len() > 0 ==> r.references == "<"@ + references + ">"@ + " "@
                + r.in_reply_to
            &&& r.sender == sender
            &&& r.recipient == (match debug_recipient {
                Some(d) => d,
                None => from,
            })
        }),
{
    let r = receipt_for(message, subject, references, from, sender, debug_recipient);
    assert(references.len() > 0 ==> r.references =~= "<"@ + references + ">"@ + " "@
        + r.in_reply_to);
}

/// The raw text of a receipt, written out: the `In-reply-to`, `References`
/// and `Subject` lines, an empty line pair, the body, and a blank line.
pub proof fn lemma_receipt_text_layout(m: ReceiptModel)
    ensures
        receipt_text(m) == "In-reply-to: "@ + m.in_reply_to + CRLF@ + "References: "@
            + m.references + CRLF@ + "Subject: "@ + m.subject + CRLF@ + CRLF@ + CRLF@ + m.body
            + CRLF@ + DOUBLE_CRLF@,
{
    let lines = receipt_lines(m);
    reveal_with_fuel(join, 7);
    assert(lines.drop_first().drop_first().drop_first().drop_first().drop_first() =~= seq![
        lines[5],
    ]);
    assert(lines.drop_first().drop_first().drop_first().drop_first() =~= seq![lines[4], lines[5]]);
    assert(lines.drop_first().drop_first().drop_first() =~= seq![lines[3], lines[4], lines[5]]);
    assert(lines.drop_first().drop_first() =~= seq![lines[2], lines[3], lines[4], lines[5]]);
    assert(lines.drop_first() =~= seq![lines[1], lines[2], lines[3], lines[4], lines[5]]);
    assert(receipt_text(m) =~= "In-reply-to: "@ + m.in_reply_to + CRLF@ + "References: "@
        + m.references + CRLF@ + "Subject: "@ + m.subject + CRLF@ + CRLF@ + CRLF@ + m.body
        + CRLF@ + DOUBLE_CRLF@);
}

} // verus!
