//! Delivering a finished volume to a device by email ("send to Kindle").
//!
//! Two constraints from outside shape this, and both fail in ways that look
//! like a bug here: Amazon only accepts mail from an approved sender and
//! discards the rest silently, and a volume is a large attachment: Amazon caps
//! a message at 50 MB and providers cap attachments lower (Gmail at 25 MB),
//! while base64 inflates the file by about a third on the way out. Both are
//! checked or explained before a send is attempted. The mail transport itself
//! belongs to the application: what is decided here is whether and what to
//! send, and how to explain a failure.
use vstd::prelude::*;

use crate::text::{
    chars_of, decimal, decimal_of, digit_char, find_from, find_str, lemma_find_from, lower_seq,
    lowered, push_all, push_str, slice_of, string_of, trim, trimmed,
};
use crate::fetch::url::{last_index, last_index_of};

verus! {

/// How the connection to the mail server is secured.
#[derive(Debug, Clone, Copy, PartialEq, Eq, Structural)]
pub enum Security {
    /// Connect in the clear, then upgrade. Port 587, and what most providers want.
    StartTls,
    /// TLS from the first byte. Port 465.
    Tls,
    /// No encryption at all. Only sane for a server on your own machine.
    Unencrypted,
}

/// The mail account a volume is sent from. The password is deliberately not a
/// field: it is passed in for the duration of one send.
#[derive(Debug, Clone)]
pub struct Account {
    pub host: String,
    pub port: u16,
    pub security: Security,
    /// Blank for a server that wants no authentication.
    pub username: String,
    /// The `From:` address. This is the one Amazon must have approved.
    pub from: String,
}

/// One volume, ready to send.
pub struct Delivery<'a> {
    /// The device address, e.g. `something@kindle.com`.
    pub to: &'a str,
    /// File name as it should arrive; becomes the title in the device library.
    pub filename: &'a str,
    pub bytes: Vec<u8>,
}

/// Amazon's ceiling for a whole message, attachment and headers together.
pub const AMAZON_MAX_MESSAGE: usize = 50 * 1024 * 1024;

/// What most providers allow per attachment (Gmail is the tightest of the big three).
pub const TYPICAL_PROVIDER_MAX: usize = 25 * 1024 * 1024;

/// The base64 size of `bytes` bytes: four out per three in, plus a line break
/// every 76 characters.
pub open spec fn encoded_size_of(bytes: nat) -> nat {
    let base = (bytes + 2) / 3 * 4;
    base + base / 76
}

/// Size an attachment occupies once base64-encoded, which is what actually
/// travels and what the limits are measured against.
pub fn encoded_size(bytes: usize) -> (r: usize)
    requires
        encoded_size_of(bytes as nat) <= usize::MAX,
    ensures
        r as nat == encoded_size_of(bytes as nat),
{
    let groups = bytes / 3 + if bytes % 3 == 0 { 0 } else { 1 };
    assert(groups == (bytes + 2) / 3);
    let base = groups * 4;
    base + base / 76
}

/// `n / d` rounded to the nearest whole number, ties to even.
pub open spec fn half_even(n: nat, d: nat) -> nat {
    let q = n / d;
    let r = n % d;
    if 2 * r > d || (2 * r == d && q % 2 == 1) {
        q + 1
    } else {
        q
    }
}

/// A byte count in megabytes with one decimal place, as `{:.1}` prints it.
pub open spec fn megabytes(n: nat) -> Seq<char> {
    let t = half_even(10 * n, 1_048_576);
    decimal_of(t / 10) + seq!['.', digit_char((t % 10) as int)]
}

fn megabytes_text(n: usize) -> (r: Vec<char>)
    ensures
        r@ == megabytes(n as nat),
{
    let m: u128 = (n as u128) * 10;
    let q = m / 1_048_576;
    let rem = m % 1_048_576;
    let t = if rem > 1_048_576 - rem || (rem == 1_048_576 - rem && q % 2 == 1) {
        q + 1
    } else {
        q
    };
    assert(t as nat == half_even(10 * (n as nat), 1_048_576));
    let mut out = decimal(t / 10);
    out.push('.');
    out.push(((t % 10) as u8 + 48u8) as char);
    assert(out@ =~= megabytes(n as nat));
    out
}

/// Why a file of `bytes` bytes would not arrive, when it would not: over
/// Amazon's limit once encoded, or over the usual provider's.
pub open spec fn size_problem_of(bytes: nat) -> Option<Seq<char>> {
    let encoded = encoded_size_of(bytes);
    if encoded > AMAZON_MAX_MESSAGE {
        Some(
            megabytes(bytes) + " MB becomes about "@ + megabytes(encoded)
                + " MB once encoded for email, over Amazon's 50 MB limit. Split the volume, or send it over USB instead."@,
        )
    } else if encoded > TYPICAL_PROVIDER_MAX {
        Some(
            megabytes(bytes) + " MB becomes about "@ + megabytes(encoded)
                + " MB once encoded for email. Amazon would accept it, but most providers cap attachments at 25 MB \u{2014} Gmail included \u{2014} and will reject it."@,
        )
    } else {
        None
    }
}

/// The encoded size never shrinks as the file grows.
pub proof fn encoded_size_grows(a: nat, b: nat)
    requires
        a <= b,
    ensures
        encoded_size_of(a) <= encoded_size_of(b),
{
    let x = (a + 2) / 3 * 4;
    let y = (b + 2) / 3 * 4;
    assert((a + 2) / 3 <= (b + 2) / 3);
    assert(x <= y);
    assert(x / 76 <= y / 76);
}

/// A file is refused exactly when its encoded size is over the usual
/// provider's 25 MB, and the largest file that passes is 19,405,464 bytes.
pub proof fn the_largest_file_that_arrives(bytes: nat)
    ensures
        size_problem_of(bytes) is None <==> encoded_size_of(bytes) <= TYPICAL_PROVIDER_MAX,
        bytes <= 19_405_464 ==> size_problem_of(bytes) is None,
        bytes >= 19_405_465 ==> size_problem_of(bytes) is Some,
{
    assert(encoded_size_of(19_405_464) == 26_214_398);
    assert(encoded_size_of(19_405_465) == 26_214_402);
    if bytes <= 19_405_464 {
        encoded_size_grows(bytes, 19_405_464);
    } else {
        encoded_size_grows(19_405_465, bytes);
    }
}

/// Whether a file is too large to arrive, and why. The explanation names the
/// limit that was hit; "too big" on its own sends people hunting in the wrong
/// place.
pub fn size_problem(bytes: usize) -> (r: Option<String>)
    requires
        encoded_size_of(bytes as nat) <= usize::MAX,
    ensures
        match r {
            Some(s) => size_problem_of(bytes as nat) == Some(s@),
            None => size_problem_of(bytes as nat) is None,
        },
{
    let encoded = encoded_size(bytes);
    if encoded > AMAZON_MAX_MESSAGE {
        let mut out = megabytes_text(bytes);
        push_str(&mut out, " MB becomes about ");
        push_all(&mut out, &megabytes_text(encoded));
        push_str(
            &mut out,
            " MB once encoded for email, over Amazon's 50 MB limit. Split the volume, or send it over USB instead.",
        );
        return Some(string_of(out.as_slice()));
    }
    if encoded > TYPICAL_PROVIDER_MAX {
        let mut out = megabytes_text(bytes);
        push_str(&mut out, " MB becomes about ");
        push_all(&mut out, &megabytes_text(encoded));
        push_str(
            &mut out,
            " MB once encoded for email. Amazon would accept it, but most providers cap attachments at 25 MB \u{2014} Gmail included \u{2014} and will reject it.",
        );
        return Some(string_of(out.as_slice()));
    }
    None
}

/// The media type for an attachment, from the text after the file name's last
/// `.` (the whole name when it has none), compared without regard to ASCII
/// case. A Kindle ignores an `application/octet-stream` it would otherwise
/// accept, so this is not cosmetic.
pub open spec fn mime_of(filename: Seq<char>) -> Seq<char> {
    let ext = lower_seq(filename.skip(last_index(filename, '.') + 1));
    if ext == "epub"@ {
        "application/epub+zip"@
    } else if ext == "cbz"@ {
        "application/vnd.comicbook+zip"@
    } else if ext == "pdf"@ {
        "application/pdf"@
    } else {
        "application/octet-stream"@
    }
}

/// The media type a device uses to decide whether it can open the attachment.
pub fn mime_for(filename: &str) -> (r: &'static str)
    ensures
        r@ == mime_of(filename@),
{
    let f = chars_of(filename);
    let n = f.len();
    let start = match last_index_of(&f, '.') {
        Some(d) => d + 1,
        None => 0,
    };
    let ext = lowered(&slice_of(&f, start, n));
    if crate::text::eq_str(&ext, "epub") {
        "application/epub+zip"
    } else if crate::text::eq_str(&ext, "cbz") {
        "application/vnd.comicbook+zip"
    } else if crate::text::eq_str(&ext, "pdf") {
        "application/pdf"
    } else {
        "application/octet-stream"
    }
}

/// A plain-text note that accompanies every volume.
pub open spec fn covering_note() -> Seq<char> {
    "Sent by Mangalize."@
}

/// A message ready for the transport: who it is from and to, its subject (the
/// file name: Amazon titles the document from the attachment, so the subject
/// is only for the user's own mailbox), the attachment's name and media type,
/// and the note that goes with it.
#[derive(Debug, Clone)]
pub struct Outgoing {
    pub from: String,
    pub to: String,
    pub subject: String,
    pub filename: String,
    pub media_type: &'static str,
    pub note: &'static str,
}

/// Why a delivery is refused before any connection, if it is.
pub open spec fn refusal_of(account: Account, to: Seq<char>, bytes: nat) -> Option<Seq<char>> {
    if trim(to).len() == 0 {
        Some("no device address set"@)
    } else if trim(account.from@).len() == 0 {
        Some("no sender address set"@)
    } else {
        size_problem_of(bytes)
    }
}

/// Check a delivery and prepare its message. A missing device or sender
/// address, or a volume too large to arrive, is refused here, before any
/// connection: none of them produces a useful error from a mail server.
pub fn send(account: &Account, password: &str, delivery: &Delivery) -> (r: Result<Outgoing, String>)
    requires
        encoded_size_of(delivery.bytes@.len()) <= usize::MAX,
    ensures
        match r {
            Ok(m) => refusal_of(*account, delivery.to@, delivery.bytes@.len()) is None
                && m.from@ == account.from@ && m.to@ == delivery.to@ && m.subject@
                == delivery.filename@ && m.filename@ == delivery.filename@ && m.media_type@
                == mime_of(delivery.filename@) && m.note@ == covering_note(),
            Err(e) => refusal_of(*account, delivery.to@, delivery.bytes@.len()) == Some(e@),
        },
{
    proof {
        reveal_strlit("no device address set");
        reveal_strlit("no sender address set");
    }
    if trimmed(&chars_of(delivery.to)).len() == 0 {
        return Err(String::from_str("no device address set"));
    }
    if trimmed(&chars_of(account.from.as_str())).len() == 0 {
        return Err(String::from_str("no sender address set"));
    }
    match size_problem(delivery.bytes.len()) {
        Some(p) => return Err(p),
        None => {},
    }
    Ok(
        Outgoing {
            from: account.from.clone(),
            to: String::from_str(delivery.to),
            subject: String::from_str(delivery.filename),
            filename: String::from_str(delivery.filename),
            media_type: mime_for(delivery.filename),
            note: "Sent by Mangalize.",
        },
    )
}

/// How to reach the mail server: the host (trimmed), port and security, and
/// the credentials when the account has a user name.
#[derive(Debug, Clone)]
pub struct Relay {
    pub host: String,
    pub port: u16,
    pub security: Security,
    pub credentials: Option<(String, String)>,
}

/// How to reach the account's mail server; a blank host is refused.
pub fn relay(account: &Account, password: &str) -> (r: Result<Relay, String>)
    ensures
        match r {
            Ok(t) => trim(account.host@).len() > 0 && t.host@ == trim(account.host@) && t.port
                == account.port && t.security == account.security && match t.credentials {
                Some((u, p)) => trim(account.username@).len() > 0 && u@ == account.username@
                    && p@ == password@,
                None => trim(account.username@).len() == 0,
            },
            Err(e) => trim(account.host@).len() == 0 && e@ == "no mail server set"@,
        },
{
    let host = trimmed(&chars_of(account.host.as_str()));
    if host.len() == 0 {
        return Err(String::from_str("no mail server set"));
    }
    let credentials = if trimmed(&chars_of(account.username.as_str())).len() == 0 {
        None
    } else {
        Some((account.username.clone(), String::from_str(password)))
    };
    Ok(
        Relay {
            host: string_of(host.as_slice()),
            port: account.port,
            security: account.security,
            credentials,
        },
    )
}

/// Whether `p` occurs in `s`.
pub open spec fn mentions(s: Seq<char>, p: Seq<char>) -> bool {
    find_from(s, p, 0) >= 0
}

/// A mail server failure, explained by its likely cause: the raw errors are
/// accurate and useless ("permanent error (535)"), whereas "your provider
/// rejected the password" is something a user can act on. The text is matched
/// without regard to ASCII case; the raw text is kept in brackets.
pub open spec fn explanation(text: Seq<char>, host: Seq<char>, port: u16) -> Seq<char> {
    let lower = lower_seq(text);
    if mentions(lower, "535"@) || mentions(lower, "authentication"@) || mentions(lower, "username"@) {
        host
            + " rejected the username or password. Gmail, Outlook and Yahoo all need an app password here rather than your normal one, which means two-factor sign-in has to be on. ("@
            + text + ")"@
    } else if mentions(lower, "certificate"@) || mentions(lower, "tls"@) || mentions(
        lower,
        "handshake"@,
    ) {
        "could not negotiate encryption with "@ + host + ":"@ + decimal_of(port as nat)
            + ". Port 587 usually wants STARTTLS and port 465 wants TLS; they are not interchangeable. ("@
            + text + ")"@
    } else if mentions(lower, "timed out"@) || mentions(lower, "connection"@) || mentions(
        lower,
        "dns"@,
    ) {
        "could not reach "@ + host + ":"@ + decimal_of(port as nat)
            + ". Check the server name and port. ("@ + text + ")"@
    } else {
        text
    }
}

fn mentions_in(lower: &Vec<char>, p: &str) -> (r: bool)
    ensures
        r == mentions(lower@, p@),
{
    match find_str(lower, p, 0) {
        Some(_) => true,
        None => false,
    }
}

/// Turn a mail server's error text into something that points at the likely cause.
pub fn explain_failure(text: &str, account: &Account) -> (r: String)
    ensures
        r@ == explanation(text@, account.host@, account.port),
{
    let lower = lowered(&chars_of(text));
    let mut out: Vec<char>;
    if mentions_in(&lower, "535") || mentions_in(&lower, "authentication") || mentions_in(
        &lower,
        "username",
    ) {
        out = chars_of(account.host.as_str());
        push_str(
            &mut out,
            " rejected the username or password. Gmail, Outlook and Yahoo all need an app password here rather than your normal one, which means two-factor sign-in has to be on. (",
        );
    } else if mentions_in(&lower, "certificate") || mentions_in(&lower, "tls") || mentions_in(
        &lower,
        "handshake",
    ) {
        out = chars_of("could not negotiate encryption with ");
        push_str(&mut out, account.host.as_str());
        push_str(&mut out, ":");
        push_all(&mut out, &decimal(account.port as u128));
        push_str(
            &mut out,
            ". Port 587 usually wants STARTTLS and port 465 wants TLS; they are not interchangeable. (",
        );
    } else if mentions_in(&lower, "timed out") || mentions_in(&lower, "connection") || mentions_in(
        &lower,
        "dns",
    ) {
        out = chars_of("could not reach ");
        push_str(&mut out, account.host.as_str());
        push_str(&mut out, ":");
        push_all(&mut out, &decimal(account.port as u128));
        push_str(&mut out, ". Check the server name and port. (");
    } else {
        return String::from_str(text);
    }
    push_str(&mut out, text);
    push_str(&mut out, ")");
    string_of(out.as_slice())
}

/// How the app is set up to deliver: the device address and the mail
/// server, as the user typed them.
#[derive(Debug, Clone, PartialEq, Eq)]
pub struct DeliveryConfig {
    pub kindle_email: String,
    pub host: String,
    pub port: u16,
    /// `tls`, `none`, or anything else for STARTTLS.
    pub security: String,
    pub username: String,
    pub from: String,
}

/// The delivery settings, and whether a password is stored: all the app
/// can know about the password.
#[derive(Debug, Clone, PartialEq, Eq)]
pub struct DeliveryStatus {
    pub config: DeliveryConfig,
    pub has_password: bool,
}

/// The security a configured name stands for: `tls`, `none`, or STARTTLS.
pub open spec fn security_of(name: Seq<char>) -> Security {
    if name == "tls"@ {
        Security::Tls
    } else if name == "none"@ {
        Security::Unencrypted
    } else {
        Security::StartTls
    }
}

/// The account a delivery configuration describes, white space trimmed;
/// without a mail server there is nothing to send through.
pub fn account(config: &DeliveryConfig) -> (r: Result<Account, String>)
    ensures
        trim(config.host@).len() == 0 ==> (r matches Err(e) && e@
            == "no mail server set — add one under Send"@),
        trim(config.host@).len() > 0 ==> (r matches Ok(a) && {
            &&& a.host@ == trim(config.host@)
            &&& a.port == config.port
            &&& a.security == security_of(config.security@)
            &&& a.username@ == trim(config.username@)
            &&& a.from@ == trim(config.from@)
        }),
{
    let host = trimmed(&chars_of(config.host.as_str()));
    if host.len() == 0 {
        return Err(String::from_str("no mail server set — add one under Send"));
    }
    let sec = chars_of(config.security.as_str());
    proof {
        reveal_strlit("tls");
        reveal_strlit("none");
    }
    let security = if crate::text::eq_str(&sec, "tls") {
        Security::Tls
    } else if crate::text::eq_str(&sec, "none") {
        Security::Unencrypted
    } else {
        Security::StartTls
    };
    Ok(
        Account {
            host: string_of(host.as_slice()),
            port: config.port,
            security,
            username: string_of(trimmed(&chars_of(config.username.as_str())).as_slice()),
            from: string_of(trimmed(&chars_of(config.from.as_str())).as_slice()),
        },
    )
}

/// Where a batch of files is sent: refused when there is nothing to send or
/// no device address is set; the address is trimmed.
pub fn send_target(files: usize, kindle_email: &str) -> (r: Result<String, String>)
    ensures
        files == 0 ==> (r matches Err(e) && e@ == "nothing to send"@),
        files > 0 && trim(kindle_email@).len() == 0 ==> (r matches Err(e) && e@
            == "no device address set — add one under Send"@),
        files > 0 && trim(kindle_email@).len() > 0 ==> (r matches Ok(to) && to@ == trim(
            kindle_email@,
        )),
{
    if files == 0 {
        return Err(String::from_str("nothing to send"));
    }
    let to = trimmed(&chars_of(kindle_email));
    if to.len() == 0 {
        Err(String::from_str("no device address set — add one under Send"))
    } else {
        Ok(string_of(to.as_slice()))
    }
}

/// One file of a send batch that failed, and why.
#[derive(Debug, Clone, PartialEq, Eq)]
pub struct SendFailure {
    pub file: String,
    pub error: String,
}

/// What a send batch did: one message per file, since batching them would
/// blow through the attachment limit on the second volume.
#[derive(Debug, Clone, PartialEq, Eq)]
pub struct SendReport {
    pub sent: Vec<String>,
    pub failed: Vec<SendFailure>,
}

impl SendReport {
    /// A report with nothing sent yet.
    pub fn new() -> (r: SendReport)
        ensures
            r.sent@.len() == 0,
            r.failed@.len() == 0,
    {
        SendReport { sent: Vec::new(), failed: Vec::new() }
    }

    /// Record what happened to the file named `file`: a file that fails is
    /// recorded and the rest still go.
    pub fn record(&mut self, file: &str, outcome: Result<(), String>)
        ensures
            match outcome {
                Ok(()) => final(self).sent@.len() == old(self).sent@.len() + 1
                    && final(self).sent@.drop_last() == old(self).sent@
                    && final(self).sent@.last()@ == file@
                    && final(self).failed@ == old(self).failed@,
                Err(e) => final(self).sent@ == old(self).sent@ && final(self).failed@.len()
                    == old(self).failed@.len() + 1 && final(self).failed@.drop_last()
                    == old(self).failed@ && final(self).failed@.last().file@ == file@
                    && final(self).failed@.last().error == e,
            },
    {
        match outcome {
            Ok(()) => {
                self.sent.push(String::from_str(file));
                assert(self.sent@.drop_last() =~= old(self).sent@);
            },
            Err(error) => {
                self.failed.push(SendFailure { file: String::from_str(file), error });
                assert(self.failed@.drop_last() =~= old(self).failed@);
            },
        }
    }
}

/// The name a file is reported under: its final path component, or the
/// whole path when it has none.
pub open spec fn display_name_of(path: Seq<char>) -> Seq<char> {
    match crate::page::file_name_of(path) {
        Some(n) => n,
        None => path,
    }
}

/// The name a file is reported under.
pub fn display_name(path: &str) -> (r: String)
    ensures
        r@ == display_name_of(path@),
{
    match crate::page::file_name_chars(&chars_of(path)) {
        Some(n) => string_of(n.as_slice()),
        None => String::from_str(path),
    }
}

} // verus!
