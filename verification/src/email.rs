//! Messages: their validity, the addresses they may go to, the JSON they are
//! sent as.

use vstd::prelude::*;
use vstd::utf8::*;

use crate::error::{ErrorKind, MailError};
use crate::json::{
    append_array, json_array, json_string, law_json_array_determines_the_numbers,
    law_json_array_of_four, law_json_string_is_a_code, string_literal,
};
use crate::text::{
    chars_of, decimal, law_trim_is_idempotent, law_white_space_around_is_trimmed, lemma_regroup,
    lemma_same_start, trim, trimmed, white_space,
};

verus! {

/// A message, with the address it goes to.
#[derive(Debug, Clone)]
pub struct Email {
    pub destination: String,
    /// The subject of the message.
    pub subject: String,
    /// The content of the message.
    pub body: String,
}

/// What an [`Email`] says.
pub struct EmailText {
    pub destination: Seq<char>,
    pub subject: Seq<char>,
    pub body: Seq<char>,
}

impl View for Email {
    type V = EmailText;

    open spec fn view(&self) -> EmailText {
        EmailText {
            destination: self.destination@,
            subject: self.subject@,
            body: self.body@,
        }
    }
}

impl EmailText {
    /// Whether the message has a subject and a body.
    pub open spec fn valid(self) -> bool {
        self.subject.len() > 0 && self.body.len() > 0
    }

    /// Whether the message can be sent: it is valid and goes somewhere.
    pub open spec fn sendable(self) -> bool {
        self.valid() && self.destination.len() > 0
    }

    /// The members of the JSON object that stands for the message.
    pub open spec fn json_members(self) -> Seq<char> {
        "\"destination\":"@ + json_string(self.destination) + ",\"subject\":"@ + json_string(
            self.subject,
        ) + ",\"body\":"@ + json_string(self.body)
    }

    /// The JSON object that stands for the message.
    pub open spec fn json(self) -> Seq<char> {
        "{"@ + self.json_members() + "}"@
    }

    /// What is sent for the message: its JSON object, with the identity secret
    /// as one more member where there is one.
    pub open spec fn request(self, identity_secret: Option<Seq<u8>>) -> Seq<char> {
        "{"@ + self.json_members() + request_end(identity_secret)
    }

    /// The message for people to read, with each part as `destination`,
    /// `subject` and `body` show it.
    pub open spec fn line(
        destination: Seq<char>,
        subject: Seq<char>,
        body: Seq<char>,
    ) -> Seq<char> {
        "To: "@ + destination + ", Subject: "@ + subject + ", Body: "@ + body
    }
}

/// How the JSON object that is sent ends: with the identity secret, where there
/// is one, and the closing brace.
pub open spec fn request_end(identity_secret: Option<Seq<u8>>) -> Seq<char> {
    match identity_secret {
        None => "}"@,
        Some(secret) => ",\"identity_secret\":"@ + json_array(secret) + "}"@,
    }
}

/// The bytes of an identity secret, where there is one.
pub open spec fn secret_bytes(secret: Option<[u8; 4]>) -> Option<Seq<u8>> {
    match secret {
        None => None,
        Some(bytes) => Some(bytes@),
    }
}

/// The code that switches a terminal style off.
pub const RESET: &'static str = "\u{1b}[0m";

/// `text` with the style switched on again behind each code in it that switches
/// a style off.
pub open spec fn restyled(text: Seq<char>, style: Seq<char>) -> Seq<char>
    decreases text.len(),
{
    if text.len() == 0 {
        text
    } else if RESET@.len() > 0 && RESET@.is_prefix_of(text) {
        RESET@ + style + restyled(text.skip(RESET@.len() as int), style)
    } else {
        seq![text.first()] + restyled(text.drop_first(), style)
    }
}

/// Whether `shown` is `text` in a terminal style. Where styles are off, that is
/// the text itself. Where they are on, it is the text between the codes that
/// switch the style on and off, with the style switched on again where the text
/// itself switches it off. Whether they are on is asked anew for the code in
/// front and for the codes within, so either may be missing where styles are
/// turned off meanwhile.
pub open spec fn shows(text: Seq<char>, style: Seq<char>, shown: Seq<char>) -> bool {
    ||| shown == text
    ||| shown == style + restyled(text, style) + RESET@
    ||| shown == style + text + RESET@
    ||| shown == restyled(text, style) + RESET@
    ||| shown == text + RESET@
}

/// In a text without escape characters no style is switched off, so nothing is
/// put into it.
pub proof fn law_plain_text_is_shown_as_it_is(text: Seq<char>, style: Seq<char>)
    requires
        !text.contains('\u{1b}'),
    ensures
        restyled(text, style) == text,
    decreases text.len(),
{
    reveal_strlit("\u{1b}[0m");
    if text.len() > 0 {
        assert(text.contains(text[0]));
        assert(!RESET@.is_prefix_of(text)) by {
            if RESET@.is_prefix_of(text) {
                assert(RESET@[0] == text.subrange(0, RESET@.len() as int)[0]);
            }
        }
        assert forall|i: int| 0 <= i < text.drop_first().len() implies text.drop_first()[i]
            != '\u{1b}' by {
            assert(text.contains(text[i + 1]));
        }
        law_plain_text_is_shown_as_it_is(text.drop_first(), style);
        assert(seq![text.first()] + text.drop_first() =~= text);
    }
}

/// `bold` and then `green` of `colored::Colorize`, and the text of the result.
///
/// Whether a style is applied depends on the environment and on the terminal.
/// Whatever they say, what comes out shows the text, as [`shows`] has it.
#[verifier::external_body]
fn bold_green(text: &str) -> (r: String)
    ensures
        shows(text@, "\u{1b}[1;32m"@, r@),
{
    colored::Colorize::green(colored::Colorize::bold(text)).to_string()
}

/// `bold` and then `blue` of `colored::Colorize`, and the text of the result.
///
/// Whether a style is applied depends on the environment and on the terminal.
/// Whatever they say, what comes out shows the text, as [`shows`] has it.
#[verifier::external_body]
fn bold_blue(text: &str) -> (r: String)
    ensures
        shows(text@, "\u{1b}[1;34m"@, r@),
{
    colored::Colorize::blue(colored::Colorize::bold(text)).to_string()
}

/// The most bytes that an address may take, white space around it apart.
pub const LONGEST_DESTINATION: usize = 254;

/// Whether the only `@` of `s` stands at `i`.
pub open spec fn only_at_sign(s: Seq<char>, i: int) -> bool {
    &&& 0 <= i < s.len()
    &&& s[i] == '@'
    &&& forall|j: int| 0 <= j < s.len() && j != i ==> #[trigger] s[j] != '@'
}

/// Whether `s` is a local part, an `@` and a domain: neither part is empty,
/// and neither holds another `@`.
pub open spec fn is_address(s: Seq<char>) -> bool {
    exists|i: int| #[trigger] only_at_sign(s, i) && 0 < i < s.len() - 1
}

/// What follows the only `@` of `s`.
pub open spec fn domain(s: Seq<char>) -> Seq<char> {
    s.skip((choose|i: int| only_at_sign(s, i)) + 1)
}

/// What is wrong with an address, if anything is. White space around it does
/// not count.
pub open spec fn destination_fault(destination: Seq<char>) -> Option<Seq<char>> {
    let address = trim(destination);
    if address.len() == 0 {
        Some("email destination cannot be empty"@)
    } else if encode_utf8(address).len() > LONGEST_DESTINATION {
        Some("email destination is too long"@)
    } else if address.contains(' ') {
        Some("email destination contains whitespace"@)
    } else if !is_address(address) {
        Some("email destination is not a valid address"@)
    } else if !domain(address).contains('.') {
        Some("email destination domain must contain a dot"@)
    } else {
        None
    }
}

/// The first place of `c` in `s` from `from` on, or the end of `s`.
fn find_from(s: &Vec<char>, c: char, from: usize) -> (r: usize)
    requires
        from <= s@.len(),
    ensures
        from <= r <= s@.len(),
        r < s@.len() ==> s@[r as int] == c,
        forall|j: int| from <= j < r ==> s@[j] != c,
{
    let mut i: usize = from;
    while i < s.len() && s[i] != c
        invariant
            from <= i <= s@.len(),
            forall|j: int| from <= j < i ==> s@[j] != c,
        decreases s@.len() - i,
    {
        i = i + 1;
    }
    i
}

impl Email {
    /// The message with that destination, subject and body.
    pub fn new(destination: String, subject: String, body: String) -> (r: Self)
        ensures
            r@ == (EmailText { destination: destination@, subject: subject@, body: body@ }),
    {
        Email { destination, subject, body }
    }

    /// Whether both `subject` and `body` are non-empty.
    pub fn is_valid(&self) -> (r: bool)
        ensures
            r == (self@.subject.len() > 0 && self@.body.len() > 0),
            r == self@.valid(),
    {
        !self.subject.as_str().is_empty() && !self.body.as_str().is_empty()
    }

    /// Whether this message can be sent: it is valid and has a destination.
    pub fn is_sendable(&self) -> (r: bool)
        ensures
            r == self@.sendable(),
            r == (self@.destination.len() > 0 && self@.subject.len() > 0 && self@.body.len() > 0),
    {
        self.is_valid() && !self.destination.as_str().is_empty()
    }

    /// Appends the members of the JSON object for this message to `out`.
    fn append_members(&self, out: &mut String) -> (r: Result<(), MailError>)
        ensures
            r is Ok,
            final(out)@ == old(out)@ + self@.json_members(),
    {
        let ghost before = out@;
        let destination: String = match string_literal(self.destination.as_str()) {
            Ok(literal) => literal,
            Err(err) => {
                return Err(MailError { kind: ErrorKind::InputOutput, message: err });
            },
        };
        let subject: String = match string_literal(self.subject.as_str()) {
            Ok(literal) => literal,
            Err(err) => {
                return Err(MailError { kind: ErrorKind::InputOutput, message: err });
            },
        };
        let body: String = match string_literal(self.body.as_str()) {
            Ok(literal) => literal,
            Err(err) => {
                return Err(MailError { kind: ErrorKind::InputOutput, message: err });
            },
        };
        out.append("\"destination\":");
        out.append(destination.as_str());
        out.append(",\"subject\":");
        out.append(subject.as_str());
        out.append(",\"body\":");
        out.append(body.as_str());
        assert(out@ =~= before + self@.json_members());
        Ok(())
    }

    /// This message as a JSON object.
    pub fn to_json(&self) -> (r: Result<String, MailError>)
        ensures
            r is Ok,
            r->Ok_0@ == self@.json(),
    {
        self.mail_request(None)
    }

    /// What is sent for this message: the JSON object of [`Email::to_json`], with
    /// the identity secret as one more member where there is one.
    pub fn mail_request(&self, identity_secret: Option<[u8; 4]>) -> (r: Result<String, MailError>)
        ensures
            r is Ok,
            r->Ok_0@ == self@.request(secret_bytes(identity_secret)),
    {
        let mut out: String = String::new();
        out.append("{");
        match self.append_members(&mut out) {
            Ok(()) => {},
            Err(err) => {
                return Err(err);
            },
        }
        if let Some(secret) = identity_secret {
            out.append(",\"identity_secret\":");
            append_array(&mut out, &secret);
        }
        out.append("}");
        assert(out@ =~= self@.request(secret_bytes(identity_secret)));
        Ok(out)
    }

    /// The parts of a message in one line for people to read.
    pub fn line(destination: &str, subject: &str, body: &str) -> (r: String)
        ensures
            r@ == EmailText::line(destination@, subject@, body@),
    {
        let mut out: String = String::new();
        out.append("To: ");
        out.append(destination);
        out.append(", Subject: ");
        out.append(subject);
        out.append(", Body: ");
        out.append(body);
        assert(out@ =~= EmailText::line(destination@, subject@, body@));
        out
    }

    /// This message in one line for people to read, its parts in bold colours
    /// where the terminal shows them.
    pub fn to_text(&self) -> (r: String)
        ensures
            exists|destination: Seq<char>, subject: Seq<char>, body: Seq<char>|
                #![trigger EmailText::line(destination, subject, body)]
                {
                    &&& r@ == EmailText::line(destination, subject, body)
                    &&& shows(self@.destination, "\u{1b}[1;32m"@, destination)
                    &&& shows(self@.subject, "\u{1b}[1;34m"@, subject)
                    &&& shows(self@.body, "\u{1b}[1;34m"@, body)
                },
    {
        let destination: String = bold_green(self.destination.as_str());
        let subject: String = bold_blue(self.subject.as_str());
        let body: String = bold_blue(self.body.as_str());
        Email::line(destination.as_str(), subject.as_str(), body.as_str())
    }

    /// Whether `destination` may be sent to: a local part, one `@`, and a domain
    /// with a dot in it, of at most [`LONGEST_DESTINATION`] bytes and without
    /// blanks. White space around the address is ignored.
    pub fn validate_destination(destination: &str) -> (r: Result<(), MailError>)
        ensures
            match r {
                Ok(()) => destination_fault(destination@) is None,
                Err(e) => destination_fault(destination@) matches Some(fault) && e.says(
                    ErrorKind::GeneralError,
                    fault,
                ),
            },
    {
        let address: &str = trimmed(destination);
        let chars = chars_of(address);
        let ghost s = address@;
        let n: usize = chars.len();
        if n == 0 {
            return Err(
                MailError::new(ErrorKind::GeneralError, "email destination cannot be empty"),
            );
        }
        if address.as_bytes().len() > LONGEST_DESTINATION {
            return Err(MailError::new(ErrorKind::GeneralError, "email destination is too long"));
        }
        let blank: usize = find_from(&chars, ' ', 0);
        if blank < n {
            assert(s[blank as int] == ' ');
            return Err(
                MailError::new(ErrorKind::GeneralError, "email destination contains whitespace"),
            );
        }
        assert(!s.contains(' '));
        let at: usize = find_from(&chars, '@', 0);
        let valid: bool = 0 < at && at < n && at + 1 < n && find_from(&chars, '@', at + 1) == n;
        if !valid {
            assert(!is_address(s)) by {
                if is_address(s) {
                    let i = choose|i: int| #[trigger] only_at_sign(s, i) && 0 < i < s.len() - 1;
                    assert(only_at_sign(s, i));
                    assert(at == i);
                }
            }
            return Err(
                MailError::new(ErrorKind::GeneralError, "email destination is not a valid address"),
            );
        }
        assert(only_at_sign(s, at as int));
        assert(domain(s) == s.skip(at + 1));
        let dot: usize = find_from(&chars, '.', at + 1);
        if dot >= n {
            assert(!domain(s).contains('.'));
            return Err(
                MailError::new(
                    ErrorKind::GeneralError,
                    "email destination domain must contain a dot",
                ),
            );
        }
        assert(domain(s)[dot - at - 1] == '.');
        Ok(())
    }
}

/// Without an identity secret, what is sent is the message's own JSON object and
/// nothing else.
pub proof fn law_request_without_secret_is_the_plain_json(email: EmailText)
    ensures
        email.request(None) == email.json(),
{
}

/// With an identity secret, what is sent is the message's own JSON object with
/// one member put in before the closing brace: the fields of the message stay
/// where they are, at the top level.
pub proof fn law_request_with_secret_extends_the_plain_json(email: EmailText, secret: Seq<u8>)
    ensures
        email.request(Some(secret)) == email.json().drop_last() + ",\"identity_secret\":"@
            + json_array(secret) + "}"@,
{
    reveal_strlit("}");
    assert(email.json().drop_last() =~= "{"@ + email.json_members());
}

/// What is sent determines the message and the identity secret.
pub proof fn law_request_determines_message_and_secret(
    a: EmailText,
    b: EmailText,
    x: Option<Seq<u8>>,
    y: Option<Seq<u8>>,
)
    requires
        a.request(x) == b.request(y),
    ensures
        a == b,
        x == y,
{
    let a1 = json_string(a.body) + request_end(x);
    let b1 = json_string(b.body) + request_end(y);
    let a2 = json_string(a.subject) + (",\"body\":"@ + a1);
    let b2 = json_string(b.subject) + (",\"body\":"@ + b1);
    let a3 = json_string(a.destination) + (",\"subject\":"@ + a2);
    let b3 = json_string(b.destination) + (",\"subject\":"@ + b2);
    lemma_request_is_nested(a, x);
    lemma_request_is_nested(b, y);
    lemma_same_start("{"@ + "\"destination\":"@, a3, b3);
    law_json_string_is_a_code(
        a.destination,
        b.destination,
        ",\"subject\":"@ + a2,
        ",\"subject\":"@ + b2,
    );
    lemma_same_start(",\"subject\":"@, a2, b2);
    law_json_string_is_a_code(a.subject, b.subject, ",\"body\":"@ + a1, ",\"body\":"@ + b1);
    lemma_same_start(",\"body\":"@, a1, b1);
    law_json_string_is_a_code(a.body, b.body, request_end(x), request_end(y));
    lemma_request_end_determines_the_secret(x, y);
}

proof fn lemma_request_is_nested(email: EmailText, x: Option<Seq<u8>>)
    ensures
        email.request(x) == ("{"@ + "\"destination\":"@) + (json_string(email.destination) + (
        ",\"subject\":"@ + (json_string(email.subject) + (",\"body\":"@ + (json_string(email.body)
            + request_end(x)))))),
{
    assert(email.request(x) =~= ("{"@ + "\"destination\":"@) + (json_string(email.destination) + (
    ",\"subject\":"@ + (json_string(email.subject) + (",\"body\":"@ + (json_string(email.body)
        + request_end(x)))))));
}

proof fn lemma_request_end_determines_the_secret(x: Option<Seq<u8>>, y: Option<Seq<u8>>)
    requires
        request_end(x) == request_end(y),
    ensures
        x == y,
{
    reveal_strlit("}");
    reveal_strlit(",\"identity_secret\":");
    let key = ",\"identity_secret\":"@;
    assert(request_end(x)[0] == request_end(y)[0]);
    if let Some(p) = x {
        assert(request_end(x)[0] == ',');
        if let Some(q) = y {
            assert(key + json_array(p) =~= request_end(x).drop_last());
            assert(key + json_array(q) =~= request_end(y).drop_last());
            lemma_same_start(key, json_array(p), json_array(q));
            law_json_array_determines_the_numbers(p, q);
        }
    } else if let Some(q) = y {
        assert(request_end(y)[0] == ',');
    }
}

/// White space around an address changes nothing about whether it may be sent
/// to, nor about what is wrong with it: neither white space that is put around
/// it nor white space that is trimmed away.
pub proof fn law_white_space_around_a_destination_is_ignored(
    before: Seq<char>,
    destination: Seq<char>,
    after: Seq<char>,
)
    requires
        forall|i: int| 0 <= i < before.len() ==> white_space(#[trigger] before[i]),
        forall|i: int| 0 <= i < after.len() ==> white_space(#[trigger] after[i]),
    ensures
        destination_fault(before + destination + after) == destination_fault(destination),
        destination_fault(trim(destination)) == destination_fault(destination),
{
    law_white_space_around_is_trimmed(before, destination, after);
    law_trim_is_idempotent(destination);
}

/// An address that may be sent to is, white space around it apart, a local part
/// and a domain on the two sides of its only `@`; neither holds a blank, and the
/// domain holds a dot.
pub proof fn law_accepted_destination_has_two_parts(destination: Seq<char>)
    requires
        destination_fault(destination) is None,
    ensures
        exists|local: Seq<char>, host: Seq<char>|
            #![trigger local.push('@') + host]
            {
                &&& trim(destination) == local.push('@') + host
                &&& local.len() > 0
                &&& host.len() > 0
                &&& !local.contains('@')
                &&& !host.contains('@')
                &&& !local.contains(' ')
                &&& !host.contains(' ')
                &&& host.contains('.')
            },
{
    let s = trim(destination);
    let i = choose|i: int| #[trigger] only_at_sign(s, i) && 0 < i < s.len() - 1;
    let k = choose|k: int| only_at_sign(s, k);
    assert(only_at_sign(s, i));
    assert(i == k);
    let local = s.take(i);
    let host = s.skip(i + 1);
    assert(s =~= local.push('@') + host);
    assert forall|j: int| 0 <= j < local.len() implies local[j] != '@' && local[j] != ' ' by {
        assert(s[j] == local[j]);
    }
    assert forall|j: int| 0 <= j < host.len() implies host[j] != '@' && host[j] != ' ' by {
        assert(s[i + 1 + j] == host[j]);
    }
}

/// A message is its three fields, and a secret its bytes, neither more nor less.
pub proof fn law_a_message_is_its_fields(email: Email, secret: [u8; 4])
    ensures
        email@.destination == email.destination@,
        email@.subject == email.subject@,
        email@.body == email.body@,
        email@.valid() <==> email.subject@.len() > 0 && email.body@.len() > 0,
        email@.sendable() <==> email.destination@.len() > 0 && email.subject@.len() > 0
            && email.body@.len() > 0,
        secret_bytes(None) is None,
        secret_bytes(Some(secret)) == Some(secret@),
{
}

/// What is sent, to the letter: an object with the three fields, each as a JSON
/// string, and behind them, where there is one, the four bytes of the secret in
/// their order.
pub proof fn law_the_request_carries_the_fields_and_the_secret(
    email: EmailText,
    a: u8,
    b: u8,
    c: u8,
    d: u8,
)
    ensures
        email.json() == "{\"destination\":"@ + json_string(email.destination) + ",\"subject\":"@
            + json_string(email.subject) + ",\"body\":"@ + json_string(email.body) + "}"@,
        email.request(None) == email.json(),
        email.request(Some(seq![a, b, c, d])) == "{\"destination\":"@ + json_string(
            email.destination,
        ) + ",\"subject\":"@ + json_string(email.subject) + ",\"body\":"@ + json_string(email.body)
            + (",\"identity_secret\":["@ + decimal(a as nat) + ","@ + decimal(b as nat) + ","@
            + decimal(c as nat) + ","@ + decimal(d as nat) + "]}"@),
{
    let m = email.json_members();
    let k = "\"destination\":"@;
    let s1 = json_string(email.destination);
    let s2 = json_string(email.subject);
    let s3 = json_string(email.body);
    assert("{"@ + k =~= "{\"destination\":"@) by {
        reveal_strlit("{");
        reveal_strlit("\"destination\":");
        reveal_strlit("{\"destination\":");
    }
    let t1 = k + s1;
    let t2 = t1 + ",\"subject\":"@;
    let t3 = t2 + s2;
    let t4 = t3 + ",\"body\":"@;
    lemma_regroup("{"@, k, s1);
    lemma_regroup("{"@, t1, ",\"subject\":"@);
    lemma_regroup("{"@, t2, s2);
    lemma_regroup("{"@, t3, ",\"body\":"@);
    lemma_regroup("{"@, t4, s3);
    assert(m == t4 + s3);
    lemma_end_of_request(a, b, c, d);
}

proof fn lemma_end_of_request(a: u8, b: u8, c: u8, d: u8)
    ensures
        request_end(Some(seq![a, b, c, d])) == ",\"identity_secret\":["@ + decimal(a as nat) + ","@
            + decimal(b as nat) + ","@ + decimal(c as nat) + ","@ + decimal(d as nat) + "]}"@,
{
    let k = ",\"identity_secret\":"@;
    assert(k + seq!['['] =~= ",\"identity_secret\":["@) by {
        reveal_strlit(",\"identity_secret\":");
        reveal_strlit(",\"identity_secret\":[");
    }
    assert(","@ =~= seq![',']) by {
        reveal_strlit(",");
    }
    assert(seq![']'] + "}"@ =~= "]}"@) by {
        reveal_strlit("}");
        reveal_strlit("]}");
    }
    law_json_array_of_four(a, b, c, d);
    let z1 = seq!['['] + decimal(a as nat);
    let z2 = z1 + seq![','];
    let z3 = z2 + decimal(b as nat);
    let z4 = z3 + seq![','];
    let z5 = z4 + decimal(c as nat);
    let z6 = z5 + seq![','];
    let z7 = z6 + decimal(d as nat);
    assert(json_array(seq![a, b, c, d]) == z7 + seq![']']);
    lemma_regroup(k, z7, seq![']']);
    lemma_regroup(k + z7, seq![']'], "}"@);
    lemma_regroup(k, z6, decimal(d as nat));
    lemma_regroup(k, z5, seq![',']);
    lemma_regroup(k, z4, decimal(c as nat));
    lemma_regroup(k, z3, seq![',']);
    lemma_regroup(k, z2, decimal(b as nat));
    lemma_regroup(k, z1, seq![',']);
    lemma_regroup(k, seq!['['], decimal(a as nat));
}

/// What people are shown, to the letter. A part without escape characters is shown
/// as it is, but for the code of its style in front of it and the code that
/// switches styles off behind it.
pub proof fn law_the_line_shows_the_parts(
    destination: Seq<char>,
    subject: Seq<char>,
    body: Seq<char>,
    style: Seq<char>,
    shown: Seq<char>,
)
    ensures
        EmailText::line(destination, subject, body) == "To: "@ + destination + ", Subject: "@
            + subject + ", Body: "@ + body,
        !body.contains('\u{1b}') ==> (shows(body, style, shown) <==> shown == body || shown == style
            + body + "\u{1b}[0m"@ || shown == body + "\u{1b}[0m"@),
{
    if !body.contains('\u{1b}') {
        law_plain_text_is_shown_as_it_is(body, style);
    }
}

/// Behind each code in a text that switches styles off its own style is switched
/// on again; nothing else is put in, and nothing is taken out.
pub proof fn law_a_style_is_switched_on_again(
    before: Seq<char>,
    after: Seq<char>,
    style: Seq<char>,
)
    requires
        !before.contains('\u{1b}'),
    ensures
        restyled(before + "\u{1b}[0m"@ + after, style) == before + "\u{1b}[0m"@ + style + restyled(
            after,
            style,
        ),
    decreases before.len(),
{
    reveal_strlit("\u{1b}[0m");
    let all = before + "\u{1b}[0m"@ + after;
    if before.len() == 0 {
        assert(all.subrange(0, RESET@.len() as int) =~= RESET@);
        assert(all.skip(RESET@.len() as int) =~= after);
        assert(restyled(all, style) =~= before + "\u{1b}[0m"@ + style + restyled(after, style));
    } else {
        assert(before.contains(before[0]));
        assert(!RESET@.is_prefix_of(all)) by {
            if RESET@.is_prefix_of(all) {
                assert(RESET@[0] == all.subrange(0, RESET@.len() as int)[0]);
            }
        }
        assert forall|i: int| 0 <= i < before.drop_first().len() implies before.drop_first()[i]
            != '\u{1b}' by {
            assert(before.contains(before[i + 1]));
        }
        assert(all.drop_first() =~= before.drop_first() + "\u{1b}[0m"@ + after);
        law_a_style_is_switched_on_again(before.drop_first(), after, style);
        assert(restyled(all, style) =~= before + "\u{1b}[0m"@ + style + restyled(after, style));
    }
}

/// What is wrong with an address, white space around it apart, in the order in
/// which it is looked at: it is empty, it takes more than 254 bytes, it holds a
/// blank, it is not two parts on the two sides of its only `@`, or the second of
/// these has no dot. An address with none of these faults is accepted.
pub proof fn law_what_is_wrong_with_a_destination(
    destination: Seq<char>,
    local: Seq<char>,
    host: Seq<char>,
)
    ensures
        trim(destination).len() == 0 ==> destination_fault(destination) == Some(
            "email destination cannot be empty"@,
        ),
        trim(destination).len() > 0 && encode_utf8(trim(destination)).len() > 254
            ==> destination_fault(destination) == Some("email destination is too long"@),
        trim(destination).len() > 0 && encode_utf8(trim(destination)).len() <= 254 && trim(
            destination,
        ).contains(' ') ==> destination_fault(destination) == Some(
            "email destination contains whitespace"@,
        ),
        trim(destination).len() > 0 && encode_utf8(trim(destination)).len() <= 254 && !trim(
            destination,
        ).contains(' ') && (forall|i: int|
            0 < i < trim(destination).len() - 1 ==> #[trigger] trim(destination)[i] != '@') ==> destination_fault(destination) == Some(
            "email destination is not a valid address"@,
        ),
        trim(destination).len() > 0 && encode_utf8(trim(destination)).len() <= 254 && !trim(
            destination,
        ).contains(' ') && (exists|i: int, j: int|
            0 <= i < j < trim(destination).len() && #[trigger] trim(destination)[i] == '@'
                && #[trigger] trim(destination)[j] == '@') ==> destination_fault(destination)
            == Some("email destination is not a valid address"@),
        ({
            &&& trim(destination) == local.push('@') + host
            &&& encode_utf8(trim(destination)).len() <= 254
            &&& local.len() > 0
            &&& host.len() > 0
            &&& !local.contains('@')
            &&& !host.contains('@')
            &&& !local.contains(' ')
            &&& !host.contains(' ')
        }) ==> destination_fault(destination) == (if host.contains('.') {
            None
        } else {
            Some("email destination domain must contain a dot"@)
        }),
{
    let s = trim(destination);
    if s.len() > 0 && encode_utf8(s).len() <= 254 && !s.contains(' ') {
        if is_address(s) {
            let k = choose|k: int| #[trigger] only_at_sign(s, k) && 0 < k < s.len() - 1;
            assert(only_at_sign(s, k));
            assert(s[k] == '@');
        }
    }
    if s == local.push('@') + host && local.len() > 0 && host.len() > 0 && !local.contains('@')
        && !host.contains('@') && !local.contains(' ') && !host.contains(' ') {
        let k = local.len() as int;
        assert forall|j: int| 0 <= j < s.len() && j != k implies #[trigger] s[j] != '@' && s[j]
            != ' ' by {
            if j < k {
                assert(local.contains(local[j]));
            } else {
                assert(host.contains(host[j - k - 1]));
                assert(s[j] == host[j - k - 1]);
            }
        }
        assert(s[k] == '@');
        assert(only_at_sign(s, k));
        let m = choose|m: int| only_at_sign(s, m);
        assert(only_at_sign(s, m));
        assert(m == k) by {
            if m != k {
                assert(s[m] != '@');
            }
        }
        assert(s.skip(k + 1) =~= host);
        assert(!s.contains(' '));
    }
}

/// A text in a style, whatever the text holds: no character of it is lost or changed
/// in front of the first code that switches styles off, and all there is besides is
/// codes.
pub proof fn law_a_text_is_shown_whole(
    c: char,
    rest: Seq<char>,
    text: Seq<char>,
    style: Seq<char>,
    shown: Seq<char>,
)
    ensures
        restyled(seq![], style) == Seq::<char>::empty(),
        !("\u{1b}[0m"@.is_prefix_of(seq![c] + rest)) ==> restyled(seq![c] + rest, style) == seq![c]
            + restyled(rest, style),
        shows(text, style, shown) <==> shown == text || shown == style + restyled(text, style)
            + "\u{1b}[0m"@ || shown == style + text + "\u{1b}[0m"@ || shown == restyled(text, style)
            + "\u{1b}[0m"@ || shown == text + "\u{1b}[0m"@,
{
    assert((seq![c] + rest).drop_first() =~= rest);
    assert((seq![c] + rest).first() == c);
}

} // verus!
