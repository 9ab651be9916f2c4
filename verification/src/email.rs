//! Mail recipients, senders and the per-recipient messages of a mailing.
use vstd::prelude::*;
use crate::text::{chars_of, split_chars, split_char, string_of, replace_str, replace_all};

verus! {

/// Errors that can occur when sending an email.
#[derive(Debug, PartialEq, Eq, Structural, Clone, Copy)]
pub enum EmailError {
    MessageBuild,
    Transport,
    Authentication,
}

/// A mail address with the name shown beside it.
pub struct User {
    pub email: String,
    pub name: String,
}

/// Login of the mail server.
pub struct Creds {
    pub username: String,
    pub password: String,
}

/// The mailbox form `name <email>` of a name and an address.
pub open spec fn mailbox_text(name: Seq<char>, email: Seq<char>) -> Seq<char> {
    name + " <"@ + email + ">"@
}

fn copy_string(s: &String) -> (r: String)
    ensures
        r@ == s@,
{
    s.clone()
}

impl User {
    /// A user with the given address and name.
    pub fn new(email: String, name: String) -> (u: User)
        ensures
            u.email == email,
            u.name == name,
    {
        User { email, name }
    }

    /// The user of an address, named by the part of the address before its
    /// first `@` (the whole address when it has none).
    pub fn user_from_email(email: &str) -> (u: User)
        ensures
            u.email@ == email@,
            u.name@ == split_char(email@, '@')[0],
    {
        let v = chars_of(email);
        let pieces = split_chars(&v, '@');
        proof {
            crate::text::lemma_char_pos(email@, '@');
        }
        let name = string_of(&pieces[0]);
        User::new(email.to_owned(), name)
    }

    /// The user as a mailbox, `name <email>`.
    pub fn to_display_string(&self) -> (r: String)
        ensures
            r@ == mailbox_text(self.name@, self.email@),
    {
        let mut r = copy_string(&self.name);
        r.append(" <");
        r.append(self.email.as_str());
        r.append(">");
        r
    }
}

impl Clone for User {
    fn clone(&self) -> (r: Self)
        ensures
            r == *self,
    {
        User { email: self.email.clone(), name: self.name.clone() }
    }
}

/// One message of a mailing, ready to be handed to the mail transport.
pub struct OutgoingEmail {
    pub from: String,
    pub to: String,
    pub subject: String,
    pub body: String,
}

/// A mailing: one message with the same subject and body template to each
/// recipient, the body's `{{NAME}}` replaced by the recipient's name.
/// `F` is the type of the callback run for each recipient before its message
/// is sent.
pub struct Mailer<F> {
    pub to: Vec<User>,
    pub from: User,
    pub subject: String,
    pub body: String,
    pub credentials: Creds,
    pub server: String,
    pub foreach: Option<F>,
}

impl<F> Mailer<F> {
    /// A mailing without a per-recipient callback.
    pub fn new(
        to: Vec<User>,
        from: User,
        subject: &str,
        body: &str,
        server: &str,
        username: &str,
        password: &str,
    ) -> (m: Mailer<F>)
        ensures
            m.to == to,
            m.from == from,
            m.subject@ == subject@,
            m.body@ == body@,
            m.server@ == server@,
            m.credentials.username@ == username@,
            m.credentials.password@ == password@,
            m.foreach is None,
    {
        Mailer {
            to,
            from,
            subject: subject.to_owned(),
            body: body.to_owned(),
            credentials: Creds { username: username.to_owned(), password: password.to_owned() },
            server: server.to_owned(),
            foreach: None,
        }
    }

    /// Sets the callback run for each recipient before its message is sent.
    pub fn add_foreach(&mut self, f: F)
        ensures
            final(self).foreach == Some(f),
            final(self).to == old(self).to,
            final(self).from == old(self).from,
            final(self).subject == old(self).subject,
            final(self).body == old(self).body,
            final(self).server == old(self).server,
            final(self).credentials == old(self).credentials,
    {
        self.foreach = Some(f);
    }

    /// The message for one recipient: from the sender's mailbox to the
    /// recipient's, with the mailing's subject and its body with `{{NAME}}`
    /// replaced by the recipient's name.
    pub fn message_for(&self, user: &User) -> (m: OutgoingEmail)
        ensures
            m.from@ == mailbox_text(self.from.name@, self.from.email@),
            m.to@ == mailbox_text(user.name@, user.email@),
            m.subject@ == self.subject@,
            m.body@ == replace_all(self.body@, "{{NAME}}"@, user.name@),
    {
        proof {
            reveal_strlit("{{NAME}}");
        }
        OutgoingEmail {
            from: self.from.to_display_string(),
            to: user.to_display_string(),
            subject: copy_string(&self.subject),
            body: replace_str(self.body.as_str(), "{{NAME}}", user.name.as_str()),
        }
    }
}

/// How the attempt to mail one recipient ended.
#[derive(PartialEq, Eq, Structural, Clone, Copy, Debug)]
pub enum SendOutcome {
    /// The message was sent.
    Sent,
    /// The message could not be built from its parts.
    BuildFailed,
    /// No connection to the mail server could be set up.
    RelayFailed,
    /// The server did not take the message.
    TransportFailed,
}

/// The count of sent messages after one more attempt, or the error that
/// ends the mailing.
pub open spec fn send_result(count: u32, outcome: SendOutcome) -> Result<u32, EmailError> {
    match outcome {
        SendOutcome::Sent => Ok((count + 1) as u32),
        SendOutcome::BuildFailed => Err(EmailError::MessageBuild),
        SendOutcome::RelayFailed => Err(EmailError::Authentication),
        SendOutcome::TransportFailed => Err(EmailError::Transport),
    }
}

/// The count of sent messages after one more attempt (see `send_result`).
pub fn record_send(count: u32, outcome: SendOutcome) -> (r: Result<u32, EmailError>)
    requires
        outcome == SendOutcome::Sent ==> count < u32::MAX,
    ensures
        r == send_result(count, outcome),
{
    match outcome {
        SendOutcome::Sent => Ok(count + 1),
        SendOutcome::BuildFailed => Err(EmailError::MessageBuild),
        SendOutcome::RelayFailed => Err(EmailError::Authentication),
        SendOutcome::TransportFailed => Err(EmailError::Transport),
    }
}

/// Where a mailing stands: the index of the next recipient and the count
/// of messages sent so far.
#[derive(Clone, Copy, PartialEq, Eq, Structural, Debug)]
pub struct MailingState {
    pub next: usize,
    pub sent: u32,
}

/// What a mailing does next.
#[derive(Clone, Copy, PartialEq, Eq, Debug)]
pub enum MailingAction {
    /// Run the callback for the recipient at this index, then mail it.
    Mail(usize),
    /// The mailing is over, with this result.
    Finish(Result<u32, EmailError>),
}

/// The action of a mailing to `recipients` recipients in state `s`: the
/// next recipient while there is one, else the end with the count sent.
pub open spec fn next_action(recipients: nat, s: MailingState) -> MailingAction {
    if s.next < recipients {
        MailingAction::Mail(s.next)
    } else {
        MailingAction::Finish(Ok(s.sent))
    }
}

/// The state and action after the attempt to mail the recipient `s.next`
/// ended with `outcome`: a sent message moves on to the next recipient,
/// any failure ends the mailing with its error.
pub open spec fn mailing_after(recipients: nat, s: MailingState, outcome: SendOutcome) -> (
    MailingState,
    MailingAction,
) {
    match send_result(s.sent, outcome) {
        Ok(c) => {
            let n = MailingState { next: (s.next + 1) as usize, sent: c };
            (n, next_action(recipients, n))
        },
        Err(e) => (s, MailingAction::Finish(Err(e))),
    }
}

/// The start of a mailing to `recipients` recipients.
pub fn mailing_start(recipients: usize) -> (r: (MailingState, MailingAction))
    ensures
        r.0 == (MailingState { next: 0, sent: 0 }),
        r.1 == next_action(recipients as nat, r.0),
{
    let s = MailingState { next: 0, sent: 0 };
    if recipients > 0 {
        (s, MailingAction::Mail(0))
    } else {
        (s, MailingAction::Finish(Ok(0)))
    }
}

/// The next state and action of a mailing once the attempt to mail the
/// recipient `state.next` ended with `outcome` (see `mailing_after`).
pub fn mailing_step(recipients: usize, state: MailingState, outcome: SendOutcome) -> (r: (
    MailingState,
    MailingAction,
))
    requires
        state.next < recipients,
        outcome == SendOutcome::Sent ==> state.sent < u32::MAX,
    ensures
        r == mailing_after(recipients as nat, state, outcome),
{
    match record_send(state.sent, outcome) {
        Ok(c) => {
            let n = MailingState { next: state.next + 1, sent: c };
            if n.next < recipients {
                (n, MailingAction::Mail(n.next))
            } else {
                (n, MailingAction::Finish(Ok(c)))
            }
        },
        Err(e) => (state, MailingAction::Finish(Err(e))),
    }
}

/// The state and action of a mailing after its first `k` recipients were
/// all sent their message.
pub open spec fn run_all_sent(recipients: nat, k: nat) -> (MailingState, MailingAction)
    decreases k,
{
    if k == 0 {
        let s = MailingState { next: 0, sent: 0 };
        (s, next_action(recipients, s))
    } else {
        mailing_after(recipients, run_all_sent(recipients, (k - 1) as nat).0, SendOutcome::Sent)
    }
}

/// A mailing mails its recipients one by one, in order, each once: where
/// every message is sent, after `k` recipients it has sent `k` messages
/// and mails recipient `k` next, and after the last it ends with the count
/// of recipients (an empty mailing ends at once with `Ok(0)`).
pub proof fn law_mailing_in_order(recipients: nat, k: nat)
    requires
        k <= recipients,
        recipients <= u32::MAX,
        recipients <= usize::MAX,
    ensures
        run_all_sent(recipients, k).0 == (MailingState { next: k as usize, sent: k as u32 }),
        k < recipients ==> run_all_sent(recipients, k).1 == MailingAction::Mail(k as usize),
        k == recipients ==> run_all_sent(recipients, k).1 == MailingAction::Finish(
            Ok::<u32, EmailError>(recipients as u32),
        ),
    decreases k,
{
    if k > 0 {
        law_mailing_in_order(recipients, (k - 1) as nat);
    }
}

/// Login and sender of the mail account that sends single messages.
pub struct Auth {
    username: String,
    password: String,
    name: String,
    server: String,
}

/// What an `Auth` holds: user name, password, sender name, server.
pub struct AuthSpec {
    pub username: Seq<char>,
    pub password: Seq<char>,
    pub name: Seq<char>,
    pub server: Seq<char>,
}

impl View for Auth {
    type V = AuthSpec;

    closed spec fn view(&self) -> AuthSpec {
        AuthSpec {
            username: self.username@,
            password: self.password@,
            name: self.name@,
            server: self.server@,
        }
    }
}

impl Auth {
    /// An account from its user name, password, sender name and server.
    pub fn new(username: String, password: String, name: String, server: String) -> (a: Auth)
        ensures
            a@ == (AuthSpec { username: username@, password: password@, name: name@, server: server@ }),
    {
        Auth { username, password, name, server }
    }

    /// The login user name, which is also the sender address.
    pub fn username(&self) -> (r: &String)
        ensures
            r@ == self@.username,
    {
        &self.username
    }

    /// The login password.
    pub fn password(&self) -> (r: &String)
        ensures
            r@ == self@.password,
    {
        &self.password
    }

    /// The mail server.
    pub fn server(&self) -> (r: &String)
        ensures
            r@ == self@.server,
    {
        &self.server
    }

    /// The sender's mailbox, `name <username>`.
    pub fn sender(&self) -> (r: String)
        ensures
            r@ == mailbox_text(self@.name, self@.username),
    {
        let u = User::new(copy_string(&self.username), copy_string(&self.name));
        u.to_display_string()
    }
}

impl Clone for Auth {
    fn clone(&self) -> (r: Self)
        ensures
            r@ == self@,
    {
        Auth {
            username: self.username.clone(),
            password: self.password.clone(),
            name: self.name.clone(),
            server: self.server.clone(),
        }
    }
}


#[verifier::external_type_specification]
#[verifier::external_body]
pub struct ExMailbox(lettre::message::Mailbox);

#[verifier::external_type_specification]
#[verifier::external_body]
pub struct ExMessage(lettre::Message);

#[verifier::external_type_specification]
#[verifier::external_body]
pub struct ExAddressError(lettre::address::AddressError);

#[verifier::external_type_specification]
#[verifier::external_body]
pub struct ExMessageError(lettre::error::Error);

/// Whether `lettre` reads a text as a mailbox (`name <address>` or a bare
/// address), by its address grammar.
pub uninterp spec fn mailbox_parses(s: Seq<char>) -> bool;

/// A mailbox that `lettre` has read, together with the text it was read
/// from, which is its view.
struct ParsedMailbox {
    mailbox: lettre::message::Mailbox,
    text: Ghost<Seq<char>>,
}

impl View for ParsedMailbox {
    type V = Seq<char>;

    closed spec fn view(&self) -> Seq<char> {
        self.text@
    }
}

/// `str::parse::<lettre::message::Mailbox>`: succeeds exactly where the
/// named predicate `mailbox_parses` holds, and keeps the text it read; the
/// address grammar is not stated.
#[verifier::external_body]
fn parse_mailbox(s: &str) -> (r: Result<ParsedMailbox, lettre::address::AddressError>)
    ensures
        r is Ok <==> mailbox_parses(s@),
        r matches Ok(m) ==> m@ == s@,
{
    match s.parse::<lettre::message::Mailbox>() {
        Ok(mailbox) => Ok(ParsedMailbox { mailbox, text: Ghost(s@) }),
        Err(e) => Err(e),
    }
}

/// Whether `lettre` reads `s` as a mailbox.
pub fn mailbox_ok(s: &str) -> (r: bool)
    ensures
        r == mailbox_parses(s@),
{
    parse_mailbox(s).is_ok()
}

/// The content type of an HTML message (`ContentType::TEXT_HTML`).
pub open spec fn html_content_type() -> Seq<char> {
    "text/html; charset=utf-8"@
}

/// The parts of a message: sender and recipient mailboxes as text, subject,
/// content type and body.
pub struct MessageParts {
    pub from: Seq<char>,
    pub to: Seq<char>,
    pub subject: Seq<char>,
    pub content_type: Seq<char>,
    pub body: Seq<char>,
}

/// A built HTML message, with the parts it was built from as its view.
pub struct EmailMessage {
    message: lettre::Message,
    parts: Ghost<MessageParts>,
}

impl View for EmailMessage {
    type V = MessageParts;

    closed spec fn view(&self) -> MessageParts {
        self.parts@
    }
}

impl EmailMessage {
    /// The message as `lettre` holds it, to hand to a mail transport.
    pub fn message(&self) -> &lettre::Message {
        &self.message
    }
}

/// `lettre::Message::builder()` with one sender, one recipient, the
/// subject, the content type `ContentType::TEXT_HTML` and the body, then `body(..)`. The build
/// fails only without a sender, with several senders and no `Sender`
/// header, or without a recipient, so with one of each it succeeds. The
/// message also carries the date of the moment it is built, which is not
/// part of the view.
#[verifier::external_body]
fn html_message(
    from: ParsedMailbox,
    to: ParsedMailbox,
    subject: String,
    body: String,
) -> (r: Result<EmailMessage, lettre::error::Error>)
    ensures
        r is Ok,
        r matches Ok(m) ==> m@ == (MessageParts {
            from: from@,
            to: to@,
            subject: subject@,
            content_type: html_content_type(),
            body: body@,
        }),
{
    let parts = Ghost(MessageParts {
        from: from@,
        to: to@,
        subject: subject@,
        content_type: html_content_type(),
        body: body@,
    });
    match lettre::Message::builder().from(from.mailbox).to(to.mailbox).subject(subject).header(
        lettre::message::header::ContentType::TEXT_HTML,
    ).body(body) {
        Ok(message) => Ok(EmailMessage { message, parts }),
        Err(e) => Err(e),
    }
}

/// The HTML message from `from` to `to`; both must be mailboxes.
fn build_message(from: &str, to: &str, subject: String, body: String) -> (m: EmailMessage)
    requires
        mailbox_parses(from@),
        mailbox_parses(to@),
    ensures
        m@ == (MessageParts {
        from: from@,
        to: to@,
        subject: subject@,
        content_type: html_content_type(),
        body: body@,
    }),
{
    let f = match parse_mailbox(from) {
        Ok(f) => f,
        Err(_) => vstd::pervasive::unreached(),
    };
    let t = match parse_mailbox(to) {
        Ok(t) => t,
        Err(_) => vstd::pervasive::unreached(),
    };
    match html_message(f, t, subject, body) {
        Ok(m) => m,
        Err(_) => vstd::pervasive::unreached(),
    }
}

/// Why no message could be made.
#[derive(PartialEq, Eq, Structural, Clone, Copy, Debug)]
pub enum PrepareError {
    /// The sender is no mailbox.
    InvalidSender,
    /// The recipient is no mailbox.
    InvalidRecipient,
}

/// The parts of the message of a mailing to one recipient.
pub open spec fn mailing_parts<F>(m: Mailer<F>, user: User) -> MessageParts {
    MessageParts {
        from: mailbox_text(m.from.name@, m.from.email@),
        to: mailbox_text(user.name@, user.email@),
        subject: m.subject@,
        content_type: html_content_type(),
        body: replace_all(m.body@, "{{NAME}}"@, user.name@),
    }
}

impl<F> Mailer<F> {
    /// The HTML message for one recipient (see `message_for`); the sender's
    /// and the recipient's `name <email>` must both be mailboxes.
    pub fn prepare(&self, user: &User) -> (m: EmailMessage)
        requires
            mailbox_parses(mailbox_text(self.from.name@, self.from.email@)),
            mailbox_parses(mailbox_text(user.name@, user.email@)),
        ensures
            m@ == mailing_parts(*self, *user),
    {
        let e = self.message_for(user);
        build_message(e.from.as_str(), e.to.as_str(), e.subject, e.body)
    }

    /// `prepare`, refused with `InvalidSender` when the sender is no
    /// mailbox, or else with `InvalidRecipient` when the recipient is none.
    pub fn try_prepare(&self, user: &User) -> (r: Result<EmailMessage, PrepareError>)
        ensures
            !mailbox_parses(mailbox_text(self.from.name@, self.from.email@)) ==> r
                == Err::<EmailMessage, PrepareError>(PrepareError::InvalidSender),
            mailbox_parses(mailbox_text(self.from.name@, self.from.email@)) && !mailbox_parses(
                mailbox_text(user.name@, user.email@),
            ) ==> r == Err::<EmailMessage, PrepareError>(PrepareError::InvalidRecipient),
            mailbox_parses(mailbox_text(self.from.name@, self.from.email@)) && mailbox_parses(
                mailbox_text(user.name@, user.email@),
            ) ==> (r matches Ok(m) && m@ == mailing_parts(*self, *user)),
    {
        let from = self.from.to_display_string();
        if !mailbox_ok(from.as_str()) {
            return Err(PrepareError::InvalidSender);
        }
        let to = user.to_display_string();
        if !mailbox_ok(to.as_str()) {
            return Err(PrepareError::InvalidRecipient);
        }
        Ok(self.prepare(user))
    }
}

impl Auth {
    /// A single HTML message from this account's `name <username>` to `to`
    /// with the subject and body; `None` when `to` is no mailbox. Where `to`
    /// is one, the account's mailbox must be one too.
    pub fn quick_message(&self, to: &str, subject: String, body: String) -> (r: Option<
        EmailMessage,
    >)
        requires
            mailbox_parses(to@) ==> mailbox_parses(mailbox_text(self@.name, self@.username)),
        ensures
            r is Some <==> mailbox_parses(to@),
            r matches Some(m) ==> m@ == (MessageParts {
                from: mailbox_text(self@.name, self@.username),
                to: to@,
                subject: subject@,
                content_type: html_content_type(),
                body: body@,
            }),
    {
        if !mailbox_ok(to) {
            return None;
        }
        let from = self.sender();
        Some(build_message(from.as_str(), to, subject, body))
    }

    /// `quick_message`, refused with `InvalidSender` where `to` is a mailbox
    /// and the account's `name <username>` is none.
    pub fn try_quick_message(&self, to: &str, subject: String, body: String) -> (r: Result<
        Option<EmailMessage>,
        PrepareError,
    >)
        ensures
            mailbox_parses(to@) && !mailbox_parses(mailbox_text(self@.name, self@.username))
                <==> r == Err::<Option<EmailMessage>, PrepareError>(PrepareError::InvalidSender),
            r is Ok || r == Err::<Option<EmailMessage>, PrepareError>(PrepareError::InvalidSender),
            r matches Ok(o) ==> (o is Some <==> mailbox_parses(to@)),
            r matches Ok(o) ==> (o matches Some(m) ==> m@ == (MessageParts {
                from: mailbox_text(self@.name, self@.username),
                to: to@,
                subject: subject@,
                content_type: html_content_type(),
                body: body@,
            })),
    {
        if mailbox_ok(to) {
            let from = self.sender();
            if !mailbox_ok(from.as_str()) {
                return Err(PrepareError::InvalidSender);
            }
        }
        Ok(self.quick_message(to, subject, body))
    }
}

} // verus!
