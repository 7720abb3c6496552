use mailsync::header::decode_mime_header;
use mailsync::header::decode_quoted_printable_header;
use mailsync::header::hex_val;
use mailsync::header::qp_decode;
use mailsync::mime::build_imap_message;
use mailsync::mime::decode_message;
use mailsync::mime::format_address;
use mailsync::mime::parse_email_body;
use mailsync::mime::parse_pop3_email_basic;
use mailsync::mime::parse_pop3_email_basic_raw;
use mailsync::mime::parse_pop3_email_with_parser;
use mailsync::mime::sanitize_message_id;

const MULTIPART: &[u8] = b"From: Alice Example <alice@example.com>\r\n\
To: bob@example.com\r\n\
Subject: Greetings\r\n\
Date: Mon, 1 Jan 2024 08:30:00 +0000\r\n\
Message-ID: <msg-1@example.com>\r\n\
MIME-Version: 1.0\r\n\
Content-Type: multipart/alternative; boundary=\"XX\"\r\n\
\r\n\
--XX\r\n\
Content-Type: text/plain\r\n\
\r\n\
plain body here\r\n\
--XX\r\n\
Content-Type: text/html\r\n\
\r\n\
<p>html body here</p>\r\n\
--XX--\r\n";

#[test]
fn b_encoded_word_decodes_to_utf8() {
    // The base64 payload spells two CJK characters in UTF-8.
    assert_eq!(decode_mime_header("=?UTF-8?B?5rWL6K+V?="), "\u{6d4b}\u{8bd5}");
}

#[test]
fn q_encoded_word_decodes_with_underscore_as_space() {
    assert_eq!(decode_mime_header("=?utf-8?Q?a_b=21?="), "a b!");
}

#[test]
fn unknown_encoding_letter_left_verbatim() {
    assert_eq!(decode_mime_header("=?UTF-8?X?abc?="), "=?UTF-8?X?abc?=");
}

#[test]
fn encoded_word_spliced_into_surrounding_text() {
    assert_eq!(
        decode_mime_header("Hello =?UTF-8?B?5rWL?= World"),
        "Hello \u{6d4b} World"
    );
}

#[test]
fn plain_header_passes_through_unchanged() {
    // Without any encoded-word token the header comes back as it was,
    // surrounding whitespace included.
    assert_eq!(decode_mime_header("  just text  "), "  just text  ");
}

#[test]
fn decoded_header_is_trimmed() {
    assert_eq!(decode_mime_header("  =?UTF-8?B?5rWL?=  "), "\u{6d4b}");
}

#[test]
fn malformed_token_without_close_left_alone() {
    assert_eq!(decode_mime_header("=?UTF-8?B?oops"), "=?UTF-8?B?oops");
}

#[test]
fn gb_charset_payload_tried_as_utf8() {
    // A GB2312-labelled token whose payload is really UTF-8 decodes as UTF-8.
    assert_eq!(decode_mime_header("=?gb2312?B?5rWL?="), "\u{6d4b}");
}

#[test]
fn qp_header_decoding() {
    let bytes = decode_quoted_printable_header("=41_B=6").unwrap();
    assert_eq!(bytes, b"A B=6".to_vec());
}

#[test]
fn qp_lowercase_hex_and_passthrough() {
    assert_eq!(qp_decode(b"=e4=b8=ad"), vec![0xe4, 0xb8, 0xad]);
    assert_eq!(qp_decode(b"plain"), b"plain".to_vec());
}

#[test]
fn hex_digit_values() {
    assert_eq!(hex_val(b'0'), Some(0));
    assert_eq!(hex_val(b'9'), Some(9));
    assert_eq!(hex_val(b'A'), Some(10));
    assert_eq!(hex_val(b'f'), Some(15));
    assert_eq!(hex_val(b'g'), None);
}

#[test]
fn multipart_yields_both_bodies() {
    let m = decode_message(MULTIPART);
    assert_eq!(m.subject, "Greetings");
    assert_eq!(m.from, "Alice Example <alice@example.com>");
    assert_eq!(m.to, "bob@example.com");
    assert!(m.date.starts_with("2024-01-01"));
    assert!(m.body_text.unwrap().contains("plain body here"));
    assert!(m.body_html.unwrap().contains("html body here"));
}

#[test]
fn unparseable_bytes_degrade_to_lossy_plaintext() {
    // Blank bytes hold no header at all, so structured parsing fails
    // entirely and the raw bytes come back as the lossy plain text.
    let raw: &[u8] = b"   ";
    let (text, html) = parse_email_body(raw);
    assert_eq!(text.as_deref(), Some("   "));
    assert!(html.is_none());
}

#[test]
fn decode_message_never_fails_without_headers() {
    let m = decode_message(b"");
    assert_eq!(m.body_text.as_deref(), Some(""));
    assert!(m.body_html.is_none());
}

#[test]
fn format_address_variants() {
    assert_eq!(
        format_address(Some("Ann".to_string()), Some("a@b.c".to_string())),
        "Ann <a@b.c>"
    );
    assert_eq!(format_address(Some("Ann".to_string()), None), "Ann");
    assert_eq!(format_address(None, Some("a@b.c".to_string())), "a@b.c");
    assert_eq!(format_address(None, None), "");
}

#[test]
fn sanitize_keeps_safe_chars_and_caps_length() {
    assert_eq!(sanitize_message_id("<ab.c-d_e@f>"), "ab.c-d_e@f");
    assert_eq!(sanitize_message_id("a!b#c"), "abc");
    let long: String = "x".repeat(250);
    assert_eq!(sanitize_message_id(&long).len(), 100);
}

#[test]
fn pop3_message_uses_sanitized_message_id() {
    let (msg, mid) = parse_pop3_email_with_parser(MULTIPART, "INBOX", 4, Some("u4".to_string()));
    assert_eq!(mid.as_deref(), Some("msg-1@example.com"));
    assert_eq!(msg.id, "msg-1@example.com");
    assert_eq!(msg.uid, 4);
    assert_eq!(msg.uid_string.as_deref(), Some("u4"));
    assert_eq!(msg.folder, "INBOX");
    assert!(msg.attachments.is_empty());
}

#[test]
fn pop3_message_without_id_falls_back_to_folder_seq() {
    let raw = b"Subject: no id\r\n\r\nbody";
    let (msg, mid) = parse_pop3_email_with_parser(raw, "INBOX", 9, None);
    assert!(mid.is_none());
    assert_eq!(msg.id, "INBOX_9");
}

#[test]
fn pop3_unparseable_bytes_keep_lossy_body() {
    let raw: &[u8] = b" ";
    let (msg, mid) = parse_pop3_email_with_parser(raw, "INBOX", 2, Some("u2".to_string()));
    assert!(mid.is_none());
    assert_eq!(msg.body_text.as_deref(), Some(" "));
    assert!(msg.body_html.is_none());
    assert!(msg.uid_string.is_none());
    assert_eq!(msg.id, "INBOX_2");
}

#[test]
fn bodyless_message_keeps_parsed_identity() {
    // A message that parses but carries neither a text nor an html part
    // stays on the parsed path: uid_string passes through, the identity
    // is the sanitized Message-ID, and the bodies stay absent.
    let raw: &[u8] = b"Message-ID: <data-9@example.com>\r\n\
Subject: =?UTF-8?B?5rWL?=\r\n\
Content-Type: application/octet-stream\r\n\
\r\n\
payload";
    let (msg, mid) = parse_pop3_email_with_parser(raw, "INBOX", 5, Some("u5".to_string()));
    assert_eq!(mid.as_deref(), Some("data-9@example.com"));
    assert_eq!(msg.id, "data-9@example.com");
    assert_eq!(msg.uid_string.as_deref(), Some("u5"));
    assert_eq!(msg.subject, "\u{6d4b}");
    assert!(msg.body_text.is_none());
    assert!(msg.body_html.is_none());
}

#[test]
fn basic_scan_reads_headers_case_insensitively() {
    let text = "FROM: a@b.c\r\nto: d@e.f\r\nSubJect: Hi\r\ndate: someday\r\nMessage-Id: <m7@x>\r\n";
    let (msg, mid) = parse_pop3_email_basic_raw(text, "INBOX", 3, None);
    assert_eq!(msg.from, "a@b.c");
    assert_eq!(msg.to, "d@e.f");
    assert_eq!(msg.subject, "Hi");
    assert_eq!(msg.date, "someday");
    assert_eq!(mid.as_deref(), Some("m7@x"));
    assert_eq!(msg.id, "m7@x");
    assert!(msg.body_text.is_none());
}

#[test]
fn basic_scan_without_message_id() {
    let msg = parse_pop3_email_basic("Subject: plain\r\n", "Sent", 12);
    assert_eq!(msg.id, "Sent_12");
    assert_eq!(msg.subject, "plain");
    assert_eq!(msg.uid, 12);
}

#[test]
fn imap_message_identity_and_flags() {
    let flags = vec!["Seen".to_string()];
    let msg = build_imap_message("INBOX", 42, flags, Some(&MULTIPART.to_vec()));
    assert_eq!(msg.id, "INBOX_42");
    assert_eq!(msg.uid, 42);
    assert_eq!(msg.uid_string.as_deref(), Some("42"));
    assert_eq!(msg.flags, vec!["Seen".to_string()]);
    assert_eq!(msg.subject, "Greetings");
}

#[test]
fn imap_message_without_body_is_bare() {
    let msg = build_imap_message("Sent", 7, Vec::new(), None);
    assert_eq!(msg.id, "Sent_7");
    assert_eq!(msg.subject, "");
    assert!(msg.body_text.is_none());
    assert!(msg.body_html.is_none());
}

#[test]
fn consecutive_encoded_words_both_decode() {
    assert_eq!(
        decode_mime_header("=?UTF-8?B?5rWL?==?UTF-8?B?6K+V?="),
        "\u{6d4b}\u{8bd5}"
    );
}

#[test]
fn qp_equals_at_end_passes_through() {
    assert_eq!(qp_decode(b"abc="), b"abc=".to_vec());
    assert_eq!(qp_decode(b"abc=4"), b"abc=4".to_vec());
}
