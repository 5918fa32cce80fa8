//! The notifier: the alert message for a breach.
//!
//! The message is put together here and handed out ready to be sent;
//! sending it is the caller's part, who reports the outcome to the alert
//! gate.

use crate::analyzer::{analyzable, percent_text, used_percent_text};
use crate::clock::{utc_text, Timestamp};
use crate::config::EmailSettings;
use crate::snapshot::MemorySnapshot;
use crate::text::{push_text, string_of};
use vstd::prelude::*;

verus! {

#[verifier::external_type_specification]
#[verifier::external_body]
pub struct ExMailbox(lettre::message::Mailbox);

#[verifier::external_type_specification]
#[verifier::external_body]
pub struct ExAddressError(lettre::address::AddressError);

#[verifier::external_type_specification]
#[verifier::external_body]
pub struct ExMessage(lettre::Message);

#[verifier::external_type_specification]
#[verifier::external_body]
pub struct ExMessageError(lettre::error::Error);

/// Whether the mail library reads `text` as a mailbox: an address, with or
/// without a display name before it.
pub uninterp spec fn mailbox_parses(text: Seq<char>) -> bool;

/// An alert that is ready to be sent.
pub struct AlertMail {
    /// The subject line.
    pub subject: String,
    /// The plain text of the body.
    pub body: String,
    /// The message with its headers, as the mail library built it.
    pub message: lettre::Message,
}

/// Why no alert could be made.
#[derive(Clone, Copy, Debug, PartialEq, Eq, Structural)]
pub enum NotifyError {
    /// The snapshot has no usage to report.
    NothingToReport,
    /// The `from` setting is no mailbox.
    InvalidSender,
    /// The `to` setting is no mailbox.
    InvalidRecipient,
    /// The mail library refused to build the message.
    Rejected,
}

/// The subject of an alert from a host that runs `os`.
pub open spec fn subject_text(os: Seq<char>) -> Seq<char> {
    "Bee alert \u{1F41D}: high memory usage on "@ + os
}

/// The body of an alert: the host's operating system, the used percentage
/// with two decimal places, and the time of the breach.
pub open spec fn body_text(os: Seq<char>, percent: Seq<char>, time: Seq<char>) -> Seq<char> {
    "Memory usage on "@ + os + " exceeded alerting threshold "@ + percent + "% on "@ + time
        + ".\nPlease check the system."@
}

/// The subject line, as [`subject_text`] says.
pub fn alert_subject(os: &str) -> (s: String)
    ensures
        s@ == subject_text(os@),
{
    let mut line: Vec<char> = Vec::new();
    push_text(&mut line, "Bee alert \u{1F41D}: high memory usage on ");
    push_text(&mut line, os);
    string_of(&line)
}

/// The body, as [`body_text`] says.
pub fn alert_body(os: &str, percent: &str, time: &str) -> (s: String)
    ensures
        s@ == body_text(os@, percent@, time@),
{
    let mut text: Vec<char> = Vec::new();
    push_text(&mut text, "Memory usage on ");
    push_text(&mut text, os);
    push_text(&mut text, " exceeded alerting threshold ");
    push_text(&mut text, percent);
    push_text(&mut text, "% on ");
    push_text(&mut text, time);
    push_text(&mut text, ".\nPlease check the system.");
    string_of(&text)
}

/// Reads a mailbox.
///
/// Trusted: this is the `FromStr` of lettre's `Mailbox`. Whether it
/// succeeds depends on the text alone, so that has a name; nothing is
/// claimed of the mailbox or of the error.
#[verifier::external_body]
fn parse_mailbox(text: &str) -> (r: Result<lettre::message::Mailbox, lettre::address::AddressError>)
    ensures
        r is Ok == mailbox_parses(text@),
{
    text.parse::<lettre::message::Mailbox>()
}

/// Builds a plain-text message.
///
/// Trusted: this is lettre's `Message::builder` with `from`, `reply_to`,
/// `to`, `subject`, the content type `text/plain` and `body`. The message
/// gets the date of the moment at which it is built, so nothing is claimed
/// of the result.
#[verifier::external_body]
fn build_message(
    from: lettre::message::Mailbox,
    reply_to: lettre::message::Mailbox,
    to: lettre::message::Mailbox,
    subject: String,
    body: String,
) -> (r: Result<lettre::Message, lettre::error::Error>) {
    lettre::Message::builder()
        .from(from)
        .reply_to(reply_to)
        .to(to)
        .subject(subject)
        .header(lettre::message::header::ContentType::TEXT_PLAIN)
        .body(body)
}

/// Makes the alert of a message that was built, or says that the mail
/// library refused: `Ok` with the given subject and body exactly when
/// `built` is.
pub fn finish_alert(
    subject: String,
    body: String,
    built: Result<lettre::Message, lettre::error::Error>,
) -> (r: Result<AlertMail, NotifyError>)
    ensures
        r is Ok == built is Ok,
        r is Ok ==> r->Ok_0.subject@ == subject@ && r->Ok_0.body@ == body@ && r->Ok_0.message
            == built->Ok_0,
        r is Err ==> r->Err_0 == NotifyError::Rejected,
{
    match built {
        Ok(message) => Ok(AlertMail { subject, body, message }),
        Err(_) => Err(NotifyError::Rejected),
    }
}

/// Which error, if any, stands in the way of an alert before the message
/// is built: the snapshot is checked first, then the sender, then the
/// recipient.
pub open spec fn obstacle(settings: EmailSettings, snapshot: MemorySnapshot) -> Option<
    NotifyError,
> {
    if !analyzable(snapshot) {
        Some(NotifyError::NothingToReport)
    } else if !mailbox_parses(settings.from@) {
        Some(NotifyError::InvalidSender)
    } else if !mailbox_parses(settings.to@) {
        Some(NotifyError::InvalidRecipient)
    } else {
        None
    }
}

/// Composes the alert for a breach that `snapshot` showed at `now` on a
/// host that runs `os`.
///
/// The sender is also the address to reply to. Where something stands in
/// the way, as [`obstacle`] says, that is the error. Otherwise the mail
/// library builds the message: the alert then has the subject and body of
/// [`subject_text`] and [`body_text`], and the only error left is that the
/// library refused.
pub fn compose_alert(
    settings: &EmailSettings,
    os: &str,
    snapshot: &MemorySnapshot,
    now: Timestamp,
) -> (r: Result<AlertMail, NotifyError>)
    ensures
        obstacle(*settings, *snapshot) is Some ==> r == Err::<AlertMail, NotifyError>(
            obstacle(*settings, *snapshot)->Some_0,
        ),
        obstacle(*settings, *snapshot) is None ==> match r {
            Ok(mail) => mail.subject@ == subject_text(os@) && mail.body@ == body_text(
                os@,
                percent_text(*snapshot),
                utc_text(now.secs(), now.nanos()),
            ),
            Err(e) => e == NotifyError::Rejected,
        },
{
    let percent = match used_percent_text(snapshot) {
        Some(p) => p,
        None => {
            return Err(NotifyError::NothingToReport);
        },
    };
    let from = match parse_mailbox(settings.from.as_str()) {
        Ok(m) => m,
        Err(_) => {
            return Err(NotifyError::InvalidSender);
        },
    };
    let reply_to = match parse_mailbox(settings.from.as_str()) {
        Ok(m) => m,
        Err(_) => {
            return Err(NotifyError::InvalidSender);
        },
    };
    let to = match parse_mailbox(settings.to.as_str()) {
        Ok(m) => m,
        Err(_) => {
            return Err(NotifyError::InvalidRecipient);
        },
    };
    let time = now.to_text();
    let subject = alert_subject(os);
    let body = alert_body(os, percent.as_str(), time.as_str());
    let built = build_message(from, reply_to, to, subject.clone(), body.clone());
    finish_alert(subject, body, built)
}

} // verus!
