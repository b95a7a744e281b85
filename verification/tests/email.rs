use apostle_client::email::LONGEST_DESTINATION;
use apostle_client::error::ErrorKind;
use apostle_client::Email;

fn sample_email() -> Email {
    Email::new(
        "dwhitfield@artisanhosting.net".to_string(),
        "sub".to_string(),
        "body".to_string(),
    )
}

fn email(destination: &str, subject: &str, body: &str) -> Email {
    Email::new(
        destination.to_string(),
        subject.to_string(),
        body.to_string(),
    )
}

#[test]
fn omits_identity_secret_when_absent() {
    let email = sample_email();
    let json = email.mail_request(None).unwrap();
    assert_eq!(json, email.to_json().unwrap());
    assert!(!json.contains("identity_secret"));
}

#[test]
fn includes_identity_secret_when_present() {
    let email = sample_email();
    let json = email.mail_request(Some([1, 2, 3, 4])).unwrap();
    assert!(json.contains(r#""identity_secret":[1,2,3,4]"#));
    // The email's own fields are still flattened at the top level, not nested.
    assert!(json.contains(r#""destination":"dwhitfield@artisanhosting.net""#));
}

#[test]
fn json_has_the_three_fields_in_order() {
    assert_eq!(
        sample_email().to_json().unwrap(),
        r#"{"destination":"dwhitfield@artisanhosting.net","subject":"sub","body":"body"}"#
    );
    assert_eq!(
        sample_email().mail_request(Some([0, 10, 99, 255])).unwrap(),
        concat_lines(
            r#"{"destination":"dwhitfield@artisanhosting.net","subject":"sub","body":"body","#,
            r#""identity_secret":[0,10,99,255]}"#
        )
    );
}

fn concat_lines(a: &str, b: &str) -> String {
    format!("{a}{b}")
}

#[test]
fn json_escapes_what_must_be_escaped() {
    let text = "quote \" backslash \\ \u{8}\u{c}\n\r\t\u{0}\u{1b}\u{1f} / \u{7f} é 漢 😀";
    let json = email("d", "s", text).to_json().unwrap();
    assert_eq!(
        json,
        concat_lines(
            r#"{"destination":"d","subject":"s","body":"quote \" backslash \\ \b\f\n\r\t"#,
            "\\u0000\\u001b\\u001f / \u{7f} é 漢 😀\"}"
        )
    );
    let value: serde_json::Value = serde_json::from_str(&json).unwrap();
    assert_eq!(value["body"].as_str(), Some(text));
    assert_eq!(value["destination"].as_str(), Some("d"));
    assert_eq!(value["subject"].as_str(), Some("s"));
}

#[test]
fn json_escapes_every_control_character_as_a_parser_reads_it() {
    for code in 0..0x300u32 {
        let c = char::from_u32(code).unwrap();
        let json = email("d", "s", &c.to_string()).to_json().unwrap();
        let value: serde_json::Value = serde_json::from_str(&json).unwrap();
        assert_eq!(value["body"].as_str(), Some(c.to_string().as_str()));
    }
}

#[test]
fn different_messages_or_secrets_make_different_requests() {
    let plain = email("a\",\"subject\":\"b", "c", "d");
    let other = email("a", "b", "d");
    assert_ne!(plain.to_json().unwrap(), other.to_json().unwrap());
    assert_ne!(
        other.mail_request(Some([1, 2, 3, 4])).unwrap(),
        other.mail_request(Some([12, 3, 4, 0])).unwrap()
    );
    assert_ne!(
        other.mail_request(Some([1, 2, 3, 4])).unwrap(),
        other.mail_request(None).unwrap()
    );
}

#[test]
fn a_message_is_valid_with_a_subject_and_a_body() {
    assert!(email("dwhitfield@artisanhosting.net", "Subject", "Body").is_valid());
    assert!(email("", "Subject", "Body").is_valid());
    assert!(!email("a@b.c", "", "Body").is_valid());
    assert!(!email("a@b.c", "Subject", "").is_valid());
    assert!(!email("", "", "").is_valid());
    assert!(email(" ", " ", " ").is_valid());
}

#[test]
fn a_message_is_sendable_when_nothing_is_missing() {
    assert!(email("a@b.c", "Subject", "Body").is_sendable());
    assert!(!email("", "Subject", "Body").is_sendable());
    assert!(!email("a@b.c", "", "Body").is_sendable());
    assert!(!email("a@b.c", "Subject", "").is_sendable());
}

#[test]
fn a_line_names_the_parts() {
    assert_eq!(
        Email::line("a@b.c", "Hello", "World"),
        "To: a@b.c, Subject: Hello, Body: World"
    );
}

/// One test, since whether colours are on is set for the whole process.
#[test]
fn text_is_bold_and_coloured_where_colours_are_on() {
    let reset = "a\u{1b}[0mb\u{1b}[0m\u{1b}[0";

    colored::control::set_override(true);
    assert_eq!(
        email("a@b.c", "Hello", "World").to_text(),
        "To: \u{1b}[1;32ma@b.c\u{1b}[0m, Subject: \u{1b}[1;34mHello\u{1b}[0m, \
         Body: \u{1b}[1;34mWorld\u{1b}[0m"
    );
    // Other codes are left alone.
    assert_eq!(
        email("\u{1b}[31mred", "", "World").to_text(),
        "To: \u{1b}[1;32m\u{1b}[31mred\u{1b}[0m, Subject: \u{1b}[1;34m\u{1b}[0m, \
         Body: \u{1b}[1;34mWorld\u{1b}[0m"
    );
    // The style is switched on again where the text switches it off.
    assert_eq!(
        email(reset, "", "World").to_text(),
        "To: \u{1b}[1;32ma\u{1b}[0m\u{1b}[1;32mb\u{1b}[0m\u{1b}[1;32m\u{1b}[0\u{1b}[0m, \
         Subject: \u{1b}[1;34m\u{1b}[0m, Body: \u{1b}[1;34mWorld\u{1b}[0m"
    );

    colored::control::set_override(false);
    assert_eq!(
        email("a@b.c", "Hello", "World").to_text(),
        "To: a@b.c, Subject: Hello, Body: World"
    );
    assert_eq!(
        email(reset, "", "World").to_text(),
        "To: a\u{1b}[0mb\u{1b}[0m\u{1b}[0, Subject: , Body: World"
    );
}

#[test]
fn white_space_put_around_a_destination_changes_nothing() {
    for destination in ["a@b.c", "", "a b@c.d", "a@b", "a@b@c.d", " a@b.c "] {
        for (before, after) in [(" ", ""), ("", "\t\n"), ("\u{3000}\r", "\u{a0} ")] {
            assert_eq!(
                fault(&format!("{before}{destination}{after}")),
                fault(destination)
            );
        }
    }
}

fn fault(destination: &str) -> Option<String> {
    match Email::validate_destination(destination) {
        Ok(()) => None,
        Err(err) => {
            assert_eq!(err.kind, ErrorKind::GeneralError);
            Some(err.message)
        }
    }
}

#[test]
fn ordinary_destinations_are_accepted() {
    assert_eq!(fault("dwhitfield@artisanhosting.net"), None);
    assert_eq!(fault("a@b.c"), None);
    assert_eq!(fault("  a@b.c\t\n"), None);
    assert_eq!(fault("\u{3000}a@b.c\u{a0}"), None);
    assert_eq!(fault("é@漢.c"), None);
    assert_eq!(fault("a\tb@c.d"), None);
    assert_eq!(fault("a@."), None);
}

#[test]
fn an_empty_destination_is_refused() {
    for destination in ["", " ", "\t\r\n", "\u{2003}"] {
        assert_eq!(
            fault(destination).as_deref(),
            Some("email destination cannot be empty")
        );
    }
}

#[test]
fn a_destination_has_at_most_so_many_bytes() {
    let longest = format!("{}@b.c", "a".repeat(LONGEST_DESTINATION - 4));
    assert_eq!(longest.len(), 254);
    assert_eq!(fault(&longest), None);
    assert_eq!(fault(&format!("   {longest}   ")), None);
    assert_eq!(
        fault(&format!("a{longest}")).as_deref(),
        Some("email destination is too long")
    );
    // Bytes count, not characters.
    let wide = format!("{}@b.c", "é".repeat(126));
    assert_eq!(wide.len(), 256);
    assert_eq!(
        fault(&wide).as_deref(),
        Some("email destination is too long")
    );
    assert_eq!(fault(&format!("{}@b.c", "é".repeat(125))), None);
}

#[test]
fn a_blank_inside_a_destination_is_refused() {
    for destination in ["a b@c.d", "a@b .c", " a @b.c"] {
        assert_eq!(
            fault(destination).as_deref(),
            Some("email destination contains whitespace")
        );
    }
}

#[test]
fn a_destination_has_two_parts_around_one_at_sign() {
    for destination in ["a", "@", "a@", "@b.c", "a@b@c.d", "a@@b.c", "a@b.c@"] {
        assert_eq!(
            fault(destination).as_deref(),
            Some("email destination is not a valid address")
        );
    }
}

#[test]
fn the_domain_of_a_destination_has_a_dot() {
    for destination in ["a@b", "a.b@c"] {
        assert_eq!(
            fault(destination).as_deref(),
            Some("email destination domain must contain a dot")
        );
    }
}
