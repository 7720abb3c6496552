//! Structured decoding of raw RFC 822/MIME messages into plain fields,
//! with a lossy-plaintext fallback that never fails, so that one
//! malformed message cannot abort a whole batch.
//!
//! Each trusted accessor parses the raw bytes afresh: the parser is
//! deterministic, so repeated parses agree, and every trusted item stays
//! a single small call.

use vstd::prelude::*;
use vstd::string::StringSliceAdditionalSpecFns;
use vstd::string::StringExecFns;
use vstd::string::StrSliceExecFns;
use crate::msg::EmailMessage;
use crate::textutil::char_alphanumeric;
use crate::textutil::char_alphanumeric_of;
use crate::textutil::copy_range;
use crate::textutil::eq_ignore_case;
use crate::textutil::push_decimal;
use crate::textutil::spec_ascii_chars;
use crate::textutil::spec_decimal_bytes;
use crate::textutil::spec_eq_ignore_case;
use crate::textutil::spec_lines;
use crate::textutil::spec_trim;
use crate::textutil::split_lines;
use crate::textutil::trim_bytes;
use crate::textutil::u32_to_string;
use crate::textutil::utf8_lossy;
use crate::textutil::utf8_lossy_of;

verus! {

/// Whether `mail_parser` can parse these bytes as a message at all.
pub uninterp spec fn mime_parse_ok_of(raw: Seq<u8>) -> bool;

/// The parsed `Subject` header, if any.
pub uninterp spec fn mime_subject_of(raw: Seq<u8>) -> Option<Seq<char>>;

/// The display name of the first `From` address, if any.
pub uninterp spec fn mime_from_name_of(raw: Seq<u8>) -> Option<Seq<char>>;

/// The address part of the first `From` address, if any.
pub uninterp spec fn mime_from_addr_of(raw: Seq<u8>) -> Option<Seq<char>>;

/// The address part of the first `To` address, if any.
pub uninterp spec fn mime_to_addr_of(raw: Seq<u8>) -> Option<Seq<char>>;

/// The parsed `Date` header rendered as RFC 3339, if any.
pub uninterp spec fn mime_date_of(raw: Seq<u8>) -> Option<Seq<char>>;

/// The first `text/plain` body part, if any.
pub uninterp spec fn mime_body_text_of(raw: Seq<u8>) -> Option<Seq<char>>;

/// The first `text/html` body part, if any.
pub uninterp spec fn mime_body_html_of(raw: Seq<u8>) -> Option<Seq<char>>;

/// The `Message-ID` header, if any.
pub uninterp spec fn mime_message_id_of(raw: Seq<u8>) -> Option<Seq<char>>;

/// Relies on `mail_parser::MessageParser::parse`: whether it returns a
/// message at all depends on the raw bytes alone.
#[verifier::external_body]
fn mime_parse_ok(raw: &[u8]) -> (r: bool)
    ensures
        r == mime_parse_ok_of(raw@),
{
    mail_parser::MessageParser::default().parse(raw).is_some()
}

/// Relies on `mail_parser`'s `Message::subject`.
#[verifier::external_body]
fn mime_subject(raw: &[u8]) -> (r: Option<String>)
    ensures
        r is Some <==> mime_subject_of(raw@) is Some,
        r matches Some(v) ==> mime_subject_of(raw@) matches Some(w) && v@ == w,
        !mime_parse_ok_of(raw@) ==> r is None,
{
    mail_parser::MessageParser::default().parse(raw).and_then(
        |m| m.subject().map(|s| s.to_string()),
    )
}

/// Relies on `mail_parser`'s `Message::from` and `Addr::name`.
#[verifier::external_body]
fn mime_from_name(raw: &[u8]) -> (r: Option<String>)
    ensures
        r is Some <==> mime_from_name_of(raw@) is Some,
        r matches Some(v) ==> mime_from_name_of(raw@) matches Some(w) && v@ == w,
        !mime_parse_ok_of(raw@) ==> r is None,
{
    mail_parser::MessageParser::default().parse(raw).and_then(
        |m| m.from().and_then(|a| a.first()).and_then(|a| a.name().map(|s| s.to_string())),
    )
}

/// Relies on `mail_parser`'s `Message::from` and `Addr::address`.
#[verifier::external_body]
fn mime_from_addr(raw: &[u8]) -> (r: Option<String>)
    ensures
        r is Some <==> mime_from_addr_of(raw@) is Some,
        r matches Some(v) ==> mime_from_addr_of(raw@) matches Some(w) && v@ == w,
        !mime_parse_ok_of(raw@) ==> r is None,
{
    mail_parser::MessageParser::default().parse(raw).and_then(
        |m| m.from().and_then(|a| a.first()).and_then(|a| a.address().map(|s| s.to_string())),
    )
}

/// Relies on `mail_parser`'s `Message::to` and `Addr::address`.
#[verifier::external_body]
fn mime_to_addr(raw: &[u8]) -> (r: Option<String>)
    ensures
        r is Some <==> mime_to_addr_of(raw@) is Some,
        r matches Some(v) ==> mime_to_addr_of(raw@) matches Some(w) && v@ == w,
        !mime_parse_ok_of(raw@) ==> r is None,
{
    mail_parser::MessageParser::default().parse(raw).and_then(
        |m| m.to().and_then(|a| a.first()).and_then(|a| a.address().map(|s| s.to_string())),
    )
}

/// Relies on `mail_parser`'s `Message::date` and `DateTime::to_rfc3339`.
#[verifier::external_body]
fn mime_date(raw: &[u8]) -> (r: Option<String>)
    ensures
        r is Some <==> mime_date_of(raw@) is Some,
        r matches Some(v) ==> mime_date_of(raw@) matches Some(w) && v@ == w,
        !mime_parse_ok_of(raw@) ==> r is None,
{
    mail_parser::MessageParser::default().parse(raw).and_then(|m| m.date().map(|d| d.to_rfc3339()))
}

/// Relies on `mail_parser`'s `Message::body_text`.
#[verifier::external_body]
fn mime_body_text(raw: &[u8]) -> (r: Option<String>)
    ensures
        r is Some <==> mime_body_text_of(raw@) is Some,
        r matches Some(v) ==> mime_body_text_of(raw@) matches Some(w) && v@ == w,
        !mime_parse_ok_of(raw@) ==> r is None,
{
    mail_parser::MessageParser::default().parse(raw).and_then(
        |m| m.body_text(0).map(|t| t.to_string()),
    )
}

/// Relies on `mail_parser`'s `Message::body_html`.
#[verifier::external_body]
fn mime_body_html(raw: &[u8]) -> (r: Option<String>)
    ensures
        r is Some <==> mime_body_html_of(raw@) is Some,
        r matches Some(v) ==> mime_body_html_of(raw@) matches Some(w) && v@ == w,
        !mime_parse_ok_of(raw@) ==> r is None,
{
    mail_parser::MessageParser::default().parse(raw).and_then(
        |m| m.body_html(0).map(|t| t.to_string()),
    )
}

/// Relies on `mail_parser`'s `Message::message_id`.
#[verifier::external_body]
fn mime_message_id(raw: &[u8]) -> (r: Option<String>)
    ensures
        r is Some <==> mime_message_id_of(raw@) is Some,
        r matches Some(v) ==> mime_message_id_of(raw@) matches Some(w) && v@ == w,
        !mime_parse_ok_of(raw@) ==> r is None,
{
    mail_parser::MessageParser::default().parse(raw).and_then(
        |m| m.message_id().map(|s| s.to_string()),
    )
}


/// How a sender is displayed: `"Name <addr>"` when both parts exist, the
/// bare name or address when only one does, empty when neither does.
pub open spec fn spec_format_address(name: Option<Seq<char>>, addr: Option<Seq<char>>) -> Seq<
    char,
> {
    match (name, addr) {
        (Some(n), Some(a)) => n + " <"@ + a + ">"@,
        (Some(n), None) => n,
        (None, Some(a)) => a,
        (None, None) => Seq::empty(),
    }
}

/// Renders a display name and address pair as one display string.
pub fn format_address(name: Option<String>, addr: Option<String>) -> (r: String)
    ensures
        r@ == spec_format_address(
            match name {
                Some(n) => Some(n@),
                None => None,
            },
            match addr {
                Some(a) => Some(a@),
                None => None,
            },
        ),
{
    match (name, addr) {
        (Some(n), Some(a)) => {
            let mut s = n;
            s.append(" <");
            s.append(a.as_str());
            s.append(">");
            s
        },
        (Some(n), None) => n,
        (None, Some(a)) => a,
        (None, None) => {
            let s = String::new();
            s
        },
    }
}

/// The decoded fields of one raw message.
pub struct DecodedMail {
    pub subject: String,
    pub from: String,
    pub to: String,
    pub date: String,
    pub body_text: Option<String>,
    pub body_html: Option<String>,
}

/// A `Seq<char>` or the empty string.
pub open spec fn spec_or_empty(v: Option<Seq<char>>) -> Seq<char> {
    match v {
        Some(s) => s,
        None => Seq::empty(),
    }
}

/// Unwraps an optional string to itself or the empty string.
fn or_empty(v: Option<String>) -> (r: String)
    ensures
        r@ == spec_or_empty(
            match v {
                Some(s) => Some(s@),
                None => None,
            },
        ),
{
    match v {
        Some(s) => s,
        None => String::new(),
    }
}

/// Decodes one raw message into its displayable fields. The header
/// fields come from structured parsing (empty when the parser finds
/// nothing); the bodies are the parsed parts when parsing succeeds (a
/// part that is absent stays `None`), else the raw bytes as lossy plain
/// text with no HTML part — a malformed message degrades, it never
/// errors.
pub fn decode_message(raw: &[u8]) -> (r: DecodedMail)
    ensures
        r.subject@ == spec_or_empty(mime_subject_of(raw@)),
        r.from@ == spec_format_address(mime_from_name_of(raw@), mime_from_addr_of(raw@)),
        r.to@ == spec_or_empty(mime_to_addr_of(raw@)),
        r.date@ == spec_or_empty(mime_date_of(raw@)),
        mime_parse_ok_of(raw@) ==> {
            &&& (r.body_text is Some <==> mime_body_text_of(raw@) is Some)
            &&& (r.body_text matches Some(t) ==> mime_body_text_of(raw@) matches Some(w) && t@
                == w)
            &&& (r.body_html is Some <==> mime_body_html_of(raw@) is Some)
            &&& (r.body_html matches Some(h) ==> mime_body_html_of(raw@) matches Some(w) && h@
                == w)
        },
        !mime_parse_ok_of(raw@) ==> (r.body_text matches Some(t) && t@ == utf8_lossy_of(raw@)
            && r.body_html is None),
{
    let from = format_address(mime_from_name(raw), mime_from_addr(raw));
    let (body_text, body_html) = parse_email_body(raw);
    DecodedMail {
        subject: or_empty(mime_subject(raw)),
        from,
        to: or_empty(mime_to_addr(raw)),
        date: or_empty(mime_date(raw)),
        body_text,
        body_html,
    }
}

/// Extracts the plain-text and HTML body parts of a raw message, falling
/// back to the lossy plain text when structured parsing fails entirely.
pub fn parse_email_body(raw: &[u8]) -> (r: (Option<String>, Option<String>))
    ensures
        mime_parse_ok_of(raw@) ==> {
            &&& (r.0 is Some <==> mime_body_text_of(raw@) is Some)
            &&& (r.0 matches Some(t) ==> mime_body_text_of(raw@) matches Some(w) && t@ == w)
            &&& (r.1 is Some <==> mime_body_html_of(raw@) is Some)
            &&& (r.1 matches Some(h) ==> mime_body_html_of(raw@) matches Some(w) && h@ == w)
        },
        !mime_parse_ok_of(raw@) ==> (r.0 matches Some(t) && t@ == utf8_lossy_of(raw@) && r.1
            is None),
{
    if mime_parse_ok(raw) {
        (mime_body_text(raw), mime_body_html(raw))
    } else {
        (Some(utf8_lossy(raw)), None)
    }
}

/// A character that survives Message-ID sanitization: alphanumeric, or
/// one of `@`, `.`, `-`, `_`.
pub open spec fn spec_keep_id_char(c: char) -> bool {
    char_alphanumeric_of(c) || c == '@' || c == '.' || c == '-' || c == '_'
}

/// The characters of `s` that survive sanitization, in order.
pub open spec fn spec_filter_id(s: Seq<char>) -> Seq<char>
    decreases s.len(),
{
    if s.len() == 0 {
        Seq::empty()
    } else if spec_keep_id_char(s[0]) {
        seq![s[0]] + spec_filter_id(s.skip(1))
    } else {
        spec_filter_id(s.skip(1))
    }
}

/// Filtering distributes over concatenation.
pub proof fn lemma_filter_id_concat(a: Seq<char>, b: Seq<char>)
    ensures
        spec_filter_id(a + b) == spec_filter_id(a) + spec_filter_id(b),
    decreases a.len(),
{
    if a.len() == 0 {
        assert(a + b =~= b);
        assert(spec_filter_id(a) + spec_filter_id(b) =~= spec_filter_id(b));
    } else {
        assert((a + b)[0] == a[0]);
        assert((a + b).skip(1) =~= a.skip(1) + b);
        lemma_filter_id_concat(a.skip(1), b);
        if spec_keep_id_char(a[0]) {
            assert(seq![a[0]] + (spec_filter_id(a.skip(1)) + spec_filter_id(b)) =~= (seq![a[0]]
                + spec_filter_id(a.skip(1))) + spec_filter_id(b));
        }
    }
}

/// Filtering one appended character appends it when it survives.
pub proof fn lemma_filter_id_step(s: Seq<char>, i: int)
    requires
        0 <= i < s.len(),
    ensures
        spec_keep_id_char(s[i]) ==> spec_filter_id(s.take(i + 1)) == spec_filter_id(
            s.take(i),
        ).push(s[i]),
        !spec_keep_id_char(s[i]) ==> spec_filter_id(s.take(i + 1)) == spec_filter_id(s.take(i)),
{
    reveal_with_fuel(spec_filter_id, 3);
    assert(s.take(i + 1) =~= s.take(i) + seq![s[i]]);
    lemma_filter_id_concat(s.take(i), seq![s[i]]);
    assert(seq![s[i]].skip(1) =~= Seq::<char>::empty());
    if spec_keep_id_char(s[i]) {
        assert(spec_filter_id(seq![s[i]]) =~= seq![s[i]]);
        assert(spec_filter_id(s.take(i)) + seq![s[i]] =~= spec_filter_id(s.take(i)).push(s[i]));
    } else {
        assert(spec_filter_id(seq![s[i]]) =~= Seq::<char>::empty());
        assert(spec_filter_id(s.take(i)) + Seq::<char>::empty() =~= spec_filter_id(s.take(i)));
    }
}

/// A sanitized identity: the surviving characters, truncated to 100.
pub open spec fn spec_sanitize_id(s: Seq<char>) -> Seq<char> {
    let f = spec_filter_id(s);
    if f.len() <= 100 {
        f
    } else {
        f.take(100)
    }
}

/// Sanitizes a Message-ID into an on-disk identity: only alphanumerics
/// and `@ . - _` survive, truncated to 100 characters.
pub fn sanitize_message_id(s: &str) -> (r: String)
    ensures
        r@ == spec_sanitize_id(s@),
{
    let n = s.unicode_len();
    let mut out = String::new();
    let mut kept: usize = 0;
    let mut i: usize = 0;
    proof {
        assert(s@.take(0) =~= Seq::<char>::empty());
    }
    while i < n && kept < 100
        invariant
            0 <= i <= n,
            n == s@.len(),
            out@ == spec_filter_id(s@.take(i as int)),
            kept == out@.len(),
            kept <= 100,
        decreases n - i,
    {
        let c = s.get_char(i);
        proof {
            lemma_filter_id_step(s@, i as int);
        }
        if char_alphanumeric(c) || c == '@' || c == '.' || c == '-' || c == '_' {
            let piece = s.substring_char(i, i + 1);
            proof {
                assert(piece@ =~= seq![s@[i as int]]);
            }
            out.append(piece);
            proof {
                assert(out@ =~= spec_filter_id(s@.take(i as int)).push(s@[i as int]));
            }
            kept += 1;
        }
        i += 1;
    }
    proof {
        let f = spec_filter_id(s@);
        if i >= n {
            assert(s@.take(n as int) =~= s@);
            if f.len() > 100 {
                assert(false);
            }
        } else {
            assert(kept == 100);
            assert(s@.take(i as int) + s@.skip(i as int) =~= s@);
            lemma_filter_id_concat(s@.take(i as int), s@.skip(i as int));
            assert(f.take(100) =~= out@);
        }
    }
    out
}

/// `s` with `<` and `>` stripped from the end.
pub open spec fn spec_strip_angle_end(s: Seq<u8>) -> Seq<u8>
    decreases s.len(),
{
    if s.len() > 0 && (s.last() == 60 || s.last() == 62) {
        spec_strip_angle_end(s.drop_last())
    } else {
        s
    }
}

/// `s` with `<` and `>` stripped from the start.
pub open spec fn spec_strip_angle_start(s: Seq<u8>) -> Seq<u8>
    decreases s.len(),
{
    if s.len() > 0 && (s[0] == 60 || s[0] == 62) {
        spec_strip_angle_start(s.skip(1))
    } else {
        s
    }
}

/// `s` with the angle brackets of a `<Message-ID>` removed from both ends.
pub open spec fn spec_strip_angles(s: Seq<u8>) -> Seq<u8> {
    spec_strip_angle_start(spec_strip_angle_end(s))
}

/// Strips `<` and `>` from both ends of a Message-ID.
pub fn strip_angles(s: &[u8]) -> (r: Vec<u8>)
    ensures
        r@ == spec_strip_angles(s@),
{
    let mut hi: usize = s.len();
    proof {
        assert(s@.take(s@.len() as int) =~= s@);
    }
    while hi > 0 && (s[hi - 1] == 60 || s[hi - 1] == 62)
        invariant
            0 <= hi <= s@.len(),
            spec_strip_angle_end(s@) == spec_strip_angle_end(s@.take(hi as int)),
        decreases hi,
    {
        proof {
            assert(s@.take(hi as int).drop_last() =~= s@.take(hi - 1));
        }
        hi -= 1;
    }
    let ghost t = s@.take(hi as int);
    proof {
        assert(spec_strip_angle_end(t) == t);
    }
    let mut lo: usize = 0;
    proof {
        assert(t.skip(0) =~= t);
    }
    while lo < hi && (s[lo] == 60 || s[lo] == 62)
        invariant
            0 <= lo <= hi <= s@.len(),
            t == s@.take(hi as int),
            spec_strip_angle_start(t) == spec_strip_angle_start(t.skip(lo as int)),
        decreases hi - lo,
    {
        proof {
            assert(t.skip(lo as int)[0] == s@[lo as int]);
            assert(t.skip(lo as int).skip(1) =~= t.skip(lo + 1));
        }
        lo += 1;
    }
    proof {
        if lo < hi {
            assert(t.skip(lo as int)[0] == s@[lo as int]);
        }
        assert(spec_strip_angle_start(t.skip(lo as int)) == t.skip(lo as int));
    }
    let r = copy_range(s, lo, hi);
    proof {
        assert(r@ =~= t.skip(lo as int));
    }
    r
}

/// The lowercase header names that the fallback scanner recognizes.
pub open spec fn spec_hn_from() -> Seq<u8> {
    seq![102u8, 114u8, 111u8, 109u8, 58u8]
}

pub open spec fn spec_hn_to() -> Seq<u8> {
    seq![116u8, 111u8, 58u8]
}

pub open spec fn spec_hn_subject() -> Seq<u8> {
    seq![115u8, 117u8, 98u8, 106u8, 101u8, 99u8, 116u8, 58u8]
}

pub open spec fn spec_hn_date() -> Seq<u8> {
    seq![100u8, 97u8, 116u8, 101u8, 58u8]
}

pub open spec fn spec_hn_message_id() -> Seq<u8> {
    seq![109u8, 101u8, 115u8, 115u8, 97u8, 103u8, 101u8, 45u8, 105u8, 100u8, 58u8]
}

/// The line begins with the given header name, compared without regard
/// to ASCII case.
pub open spec fn spec_header_match(l: Seq<u8>, name: Seq<u8>) -> bool {
    l.len() >= name.len() && spec_eq_ignore_case(l.take(name.len() as int), name)
}

/// The trimmed value of the last line carrying the given header, if any.
pub open spec fn spec_scan_header(lines: Seq<Seq<u8>>, name: Seq<u8>) -> Option<Seq<u8>>
    decreases lines.len(),
{
    if lines.len() == 0 {
        None
    } else if spec_header_match(lines.last(), name) {
        Some(spec_trim(lines.last().skip(name.len() as int)))
    } else {
        spec_scan_header(lines.drop_last(), name)
    }
}

/// Tests one line against a header name and hands back its trimmed value.
fn line_value_if(l: &[u8], name: &[u8]) -> (r: Option<Vec<u8>>)
    ensures
        r is Some <==> spec_header_match(l@, name@),
        r matches Some(v) ==> v@ == spec_trim(l@.skip(name@.len() as int)),
{
    if l.len() < name.len() {
        return None;
    }
    let prefix = copy_range(l, 0, name.len());
    if eq_ignore_case(prefix.as_slice(), name) {
        let rest = copy_range(l, name.len(), l.len());
        proof {
            assert(rest@ =~= l@.skip(name@.len() as int));
        }
        Some(trim_bytes(rest.as_slice()))
    } else {
        None
    }
}

/// The five header values that the fallback scanner extracts.
pub struct ScannedHeaders {
    pub from: Option<Vec<u8>>,
    pub to: Option<Vec<u8>>,
    pub subject: Option<Vec<u8>>,
    pub date: Option<Vec<u8>>,
    pub message_id: Option<Vec<u8>>,
}

/// One scanned header value agrees with the scan of the given lines.
pub open spec fn spec_scan_agrees(v: Option<Vec<u8>>, lines: Seq<Seq<u8>>, name: Seq<u8>) -> bool {
    match (v, spec_scan_header(lines, name)) {
        (Some(a), Some(b)) => a@ == b,
        (None, None) => true,
        _ => false,
    }
}

/// Scans raw message text line by line for `From:`, `To:`, `Subject:`,
/// `Date:` and `Message-ID:` headers, matching names without regard to
/// case; the last occurrence of each wins.
pub fn scan_headers(raw: &[u8]) -> (r: ScannedHeaders)
    ensures
        spec_scan_agrees(r.from, spec_lines(raw@), spec_hn_from()),
        spec_scan_agrees(r.to, spec_lines(raw@), spec_hn_to()),
        spec_scan_agrees(r.subject, spec_lines(raw@), spec_hn_subject()),
        spec_scan_agrees(r.date, spec_lines(raw@), spec_hn_date()),
        spec_scan_agrees(r.message_id, spec_lines(raw@), spec_hn_message_id()),
{
    let mut n_from: Vec<u8> = Vec::new();
    n_from.push(102);
    n_from.push(114);
    n_from.push(111);
    n_from.push(109);
    n_from.push(58);
    assert(n_from@ =~= spec_hn_from());
    let mut n_to: Vec<u8> = Vec::new();
    n_to.push(116);
    n_to.push(111);
    n_to.push(58);
    assert(n_to@ =~= spec_hn_to());
    let mut n_subject: Vec<u8> = Vec::new();
    n_subject.push(115);
    n_subject.push(117);
    n_subject.push(98);
    n_subject.push(106);
    n_subject.push(101);
    n_subject.push(99);
    n_subject.push(116);
    n_subject.push(58);
    assert(n_subject@ =~= spec_hn_subject());
    let mut n_date: Vec<u8> = Vec::new();
    n_date.push(100);
    n_date.push(97);
    n_date.push(116);
    n_date.push(101);
    n_date.push(58);
    assert(n_date@ =~= spec_hn_date());
    let mut n_mid: Vec<u8> = Vec::new();
    n_mid.push(109);
    n_mid.push(101);
    n_mid.push(115);
    n_mid.push(115);
    n_mid.push(97);
    n_mid.push(103);
    n_mid.push(101);
    n_mid.push(45);
    n_mid.push(105);
    n_mid.push(100);
    n_mid.push(58);
    assert(n_mid@ =~= spec_hn_message_id());
    let lines = split_lines(raw);
    let ghost lv = crate::textutil::spec_lines_view(lines@);
    let mut r = ScannedHeaders { from: None, to: None, subject: None, date: None, message_id: None };
    let mut i: usize = 0;
    proof {
        assert(lv.take(0) =~= Seq::<Seq<u8>>::empty());
    }
    while i < lines.len()
        invariant
            0 <= i <= lines@.len(),
            lv == crate::textutil::spec_lines_view(lines@),
            n_from@ == spec_hn_from(),
            n_to@ == spec_hn_to(),
            n_subject@ == spec_hn_subject(),
            n_date@ == spec_hn_date(),
            n_mid@ == spec_hn_message_id(),
            spec_scan_agrees(r.from, lv.take(i as int), spec_hn_from()),
            spec_scan_agrees(r.to, lv.take(i as int), spec_hn_to()),
            spec_scan_agrees(r.subject, lv.take(i as int), spec_hn_subject()),
            spec_scan_agrees(r.date, lv.take(i as int), spec_hn_date()),
            spec_scan_agrees(r.message_id, lv.take(i as int), spec_hn_message_id()),
        decreases lines@.len() - i,
    {
        let l = &lines[i];
        proof {
            assert(lv[i as int] == lines@[i as int]@);
            assert(lv.take(i + 1).drop_last() =~= lv.take(i as int));
            assert(lv.take(i + 1).last() == lv[i as int]);
        }
        match line_value_if(l.as_slice(), n_from.as_slice()) {
            Some(v) => {
                r.from = Some(v);
            },
            None => {},
        }
        match line_value_if(l.as_slice(), n_to.as_slice()) {
            Some(v) => {
                r.to = Some(v);
            },
            None => {},
        }
        match line_value_if(l.as_slice(), n_subject.as_slice()) {
            Some(v) => {
                r.subject = Some(v);
            },
            None => {},
        }
        match line_value_if(l.as_slice(), n_date.as_slice()) {
            Some(v) => {
                r.date = Some(v);
            },
            None => {},
        }
        match line_value_if(l.as_slice(), n_mid.as_slice()) {
            Some(v) => {
                r.message_id = Some(v);
            },
            None => {},
        }
        i += 1;
    }
    proof {
        assert(lv.take(lines@.len() as int) =~= lv);
    }
    r
}

/// The fallback identity of a message without a usable Message-ID:
/// `{folder}_{uid}`.
pub open spec fn spec_default_id(folder: Seq<u8>, uid: nat) -> Seq<u8> {
    folder + seq![95u8] + spec_decimal_bytes(uid)
}

/// Builds the `{folder}_{uid}` identity.
pub fn default_id(folder: &str, uid: u32) -> (r: Vec<u8>)
    ensures
        r@ == spec_default_id(folder.spec_bytes(), uid as nat),
{
    let mut v = folder.as_bytes_vec();
    v.push(95);
    let ghost mid = v@;
    push_decimal(uid as u64, &mut v);
    proof {
        assert(mid =~= folder.spec_bytes() + seq![95u8]);
        assert(v@ =~= spec_default_id(folder.spec_bytes(), uid as nat));
    }
    v
}

/// What the fallback header scan yields as a display string: the lossy
/// decoding of the scanned value, or empty when the header is absent.
pub open spec fn spec_scanned_str(lines: Seq<Seq<u8>>, name: Seq<u8>) -> Seq<char> {
    match spec_scan_header(lines, name) {
        Some(v) => utf8_lossy_of(v),
        None => Seq::empty(),
    }
}

/// The header fields of a message built by the fallback scanner: each
/// display field is the last matching header's trimmed value, and the
/// identity is the angle-stripped Message-ID when one was scanned, else
/// `{folder}_{seq}`.
pub open spec fn spec_basic_headers(
    m: EmailMessage,
    lines: Seq<Seq<u8>>,
    folder_bytes: Seq<u8>,
    seq: u32,
) -> bool {
    &&& m.subject@ == spec_scanned_str(lines, spec_hn_subject())
    &&& m.from@ == spec_scanned_str(lines, spec_hn_from())
    &&& m.to@ == spec_scanned_str(lines, spec_hn_to())
    &&& m.date@ == spec_scanned_str(lines, spec_hn_date())
    &&& m.id@ == (match spec_scan_header(lines, spec_hn_message_id()) {
        Some(v) => utf8_lossy_of(spec_strip_angles(v)),
        None => utf8_lossy_of(spec_default_id(folder_bytes, seq as nat)),
    })
}

/// Builds a message from the fallback header scan of raw bytes.
fn basic_from_bytes(raw: &[u8], folder: &str, seq: u32, uid_string: Option<String>) -> (r: (
    EmailMessage,
    Option<String>,
))
    ensures
        spec_basic_headers(r.0, spec_lines(raw@), folder.spec_bytes(), seq),
        r.0.uid == seq,
        r.0.uid_string == uid_string,
        r.0.body_text is None,
        r.0.body_html is None,
        r.0.attachments@.len() == 0,
        r.0.flags@.len() == 0,
        r.0.folder@ == folder@,
        (match spec_scan_header(spec_lines(raw@), spec_hn_message_id()) {
            Some(v) => r.1 matches Some(m) && m@ == utf8_lossy_of(spec_strip_angles(v)),
            None => r.1 is None,
        }),
{
    let h = scan_headers(raw);
    let from = match h.from {
        Some(v) => utf8_lossy(v.as_slice()),
        None => String::new(),
    };
    let to = match h.to {
        Some(v) => utf8_lossy(v.as_slice()),
        None => String::new(),
    };
    let subject = match h.subject {
        Some(v) => utf8_lossy(v.as_slice()),
        None => String::new(),
    };
    let date = match h.date {
        Some(v) => utf8_lossy(v.as_slice()),
        None => String::new(),
    };
    let (id, mid): (String, Option<String>) = match h.message_id {
        Some(v) => {
            let stripped = strip_angles(v.as_slice());
            let m = utf8_lossy(stripped.as_slice());
            let m2 = m.clone();
            (m, Some(m2))
        },
        None => {
            let d = default_id(folder, seq);
            (utf8_lossy(d.as_slice()), None)
        },
    };
    let msg = EmailMessage {
        id,
        uid: seq,
        uid_string,
        from,
        to,
        subject,
        date,
        body_text: None,
        body_html: None,
        attachments: Vec::new(),
        flags: Vec::new(),
        folder: String::from_str(folder),
    };
    (msg, mid)
}

/// Builds a message by scanning raw text for `From:`, `To:`, `Subject:`,
/// `Date:` and `Message-ID:` lines, without structured MIME parsing.
/// Bodies stay empty; the scanned Message-ID, stripped of its angle
/// brackets, also comes back separately.
pub fn parse_pop3_email_basic_raw(response: &str, folder: &str, seq: u32, uid_string: Option<
    String,
>) -> (r: (EmailMessage, Option<String>))
    ensures
        spec_basic_headers(r.0, spec_lines(response.spec_bytes()), folder.spec_bytes(), seq),
        r.0.uid == seq,
        r.0.uid_string == uid_string,
        r.0.body_text is None,
        r.0.body_html is None,
        r.0.attachments@.len() == 0,
        r.0.flags@.len() == 0,
        r.0.folder@ == folder@,
        (match spec_scan_header(spec_lines(response.spec_bytes()), spec_hn_message_id()) {
            Some(v) => r.1 matches Some(m) && m@ == utf8_lossy_of(spec_strip_angles(v)),
            None => r.1 is None,
        }),
{
    basic_from_bytes(response.as_bytes(), folder, seq, uid_string)
}

/// Builds a message from the fallback header scan, without a UIDL id.
pub fn parse_pop3_email_basic(response: &str, folder: &str, seq: u32) -> (r: EmailMessage)
    ensures
        spec_basic_headers(r, spec_lines(response.spec_bytes()), folder.spec_bytes(), seq),
        r.uid == seq,
        r.uid_string is None,
        r.body_text is None,
        r.body_html is None,
        r.attachments@.len() == 0,
        r.flags@.len() == 0,
        r.folder@ == folder@,
{
    let (msg, _mid) = parse_pop3_email_basic_raw(response, folder, seq, None);
    msg
}

/// Builds one POP3 message from its raw RETR bytes. When structured
/// parsing succeeds, the fields come from the MIME structure and the
/// identity is the sanitized Message-ID (else `{folder}_{seq}`); when it
/// fails entirely, the fallback header scan supplies the fields and the
/// raw bytes become the lossy plain-text body, so a malformed message
/// still comes through.
pub fn parse_pop3_email_with_parser(raw: &[u8], folder: &str, seq: u32, uid_string: Option<
    String,
>) -> (r: (EmailMessage, Option<String>))
    ensures
        r.0.uid == seq,
        r.0.attachments@.len() == 0,
        r.0.flags@.len() == 0,
        r.0.folder@ == folder@,
        mime_parse_ok_of(raw@) ==> {
            &&& r.0.uid_string == uid_string
            &&& r.0.subject@ == spec_or_empty(mime_subject_of(raw@))
            &&& r.0.from@ == spec_format_address(mime_from_name_of(raw@), mime_from_addr_of(raw@))
            &&& r.0.to@ == spec_or_empty(mime_to_addr_of(raw@))
            &&& r.0.date@ == spec_or_empty(mime_date_of(raw@))
            &&& (r.0.body_text is Some <==> mime_body_text_of(raw@) is Some)
            &&& (r.0.body_text matches Some(t) ==> mime_body_text_of(raw@) matches Some(w) && t@
                == w)
            &&& (r.0.body_html is Some <==> mime_body_html_of(raw@) is Some)
            &&& (r.0.body_html matches Some(h) ==> mime_body_html_of(raw@) matches Some(w) && h@
                == w)
            &&& (match mime_message_id_of(raw@) {
                Some(v) => r.1 matches Some(m) && m@ == spec_sanitize_id(v) && r.0.id@
                    == spec_sanitize_id(v),
                None => r.1 is None && r.0.id@ == utf8_lossy_of(
                    spec_default_id(folder.spec_bytes(), seq as nat),
                ),
            })
        },
        !mime_parse_ok_of(raw@) ==> {
            &&& spec_basic_headers(r.0, spec_lines(raw@), folder.spec_bytes(), seq)
            &&& r.0.uid_string is None
            &&& (r.0.body_text matches Some(t) && t@ == utf8_lossy_of(raw@))
            &&& r.0.body_html is None
            &&& (match spec_scan_header(spec_lines(raw@), spec_hn_message_id()) {
                Some(v) => r.1 matches Some(m) && m@ == utf8_lossy_of(spec_strip_angles(v)),
                None => r.1 is None,
            })
        },
{
    if mime_parse_ok(raw) {
        let from = format_address(mime_from_name(raw), mime_from_addr(raw));
        let (id, mid): (String, Option<String>) = match mime_message_id(raw) {
            Some(s) => {
                let m = sanitize_message_id(s.as_str());
                let m2 = m.clone();
                (m, Some(m2))
            },
            None => {
                let d = default_id(folder, seq);
                (utf8_lossy(d.as_slice()), None)
            },
        };
        let msg = EmailMessage {
            id,
            uid: seq,
            uid_string,
            from,
            to: or_empty(mime_to_addr(raw)),
            subject: or_empty(mime_subject(raw)),
            date: or_empty(mime_date(raw)),
            body_text: mime_body_text(raw),
            body_html: mime_body_html(raw),
            attachments: Vec::new(),
            flags: Vec::new(),
            folder: String::from_str(folder),
        };
        (msg, mid)
    } else {
        let (mut msg, mid) = basic_from_bytes(raw, folder, seq, None);
        msg.body_text = Some(utf8_lossy(raw));
        (msg, mid)
    }
}

/// One message of an IMAP page relates to what the server sent: identity
/// `{folder}_{uid}`, the server's flags, and fields decoded from the raw
/// body when one came (structured when it parses, the lossy plain-text
/// fallback when parsing fails entirely, empty when the server sent no
/// body).
pub open spec fn spec_imap_msg(
    m: EmailMessage,
    folder_chars: Seq<char>,
    folder_bytes: Seq<u8>,
    uid: u32,
    flags: Seq<String>,
    raw: Option<Seq<u8>>,
) -> bool {
    &&& m.id@ == utf8_lossy_of(spec_default_id(folder_bytes, uid as nat))
    &&& m.uid == uid
    &&& (m.uid_string matches Some(u) && u@ == spec_ascii_chars(spec_decimal_bytes(uid as nat)))
    &&& m.folder@ == folder_chars
    &&& m.flags@ == flags
    &&& m.attachments@.len() == 0
    &&& (raw is None ==> m.subject@.len() == 0 && m.from@.len() == 0 && m.to@.len() == 0
        && m.date@.len() == 0 && m.body_text is None && m.body_html is None)
    &&& (raw matches Some(b) ==> {
        &&& m.subject@ == spec_or_empty(mime_subject_of(b))
        &&& m.from@ == spec_format_address(mime_from_name_of(b), mime_from_addr_of(b))
        &&& m.to@ == spec_or_empty(mime_to_addr_of(b))
        &&& m.date@ == spec_or_empty(mime_date_of(b))
    })
    &&& (raw matches Some(b) ==> mime_parse_ok_of(b) ==> {
        &&& (m.body_text is Some <==> mime_body_text_of(b) is Some)
        &&& (m.body_text matches Some(t) ==> mime_body_text_of(b) matches Some(w) && t@ == w)
        &&& (m.body_html is Some <==> mime_body_html_of(b) is Some)
        &&& (m.body_html matches Some(h) ==> mime_body_html_of(b) matches Some(w) && h@ == w)
    })
    &&& (raw matches Some(b) ==> !mime_parse_ok_of(b) ==> (m.body_text matches Some(t) && t@
        == utf8_lossy_of(b) && m.body_html is None))
}

/// Builds one IMAP message from a fetch response: the identity is always
/// `{folder}_{uid}`, the flags come from the server, and the fields come
/// from decoding the raw body when the server sent one.
pub fn build_imap_message(folder: &str, uid: u32, flags: Vec<String>, raw: Option<&Vec<u8>>) -> (r:
    EmailMessage)
    ensures
        spec_imap_msg(
            r,
            folder@,
            folder.spec_bytes(),
            uid,
            flags@,
            match raw {
                Some(b) => Some(b@),
                None => None,
            },
        ),
{
    let dm = match raw {
        Some(b) => decode_message(b.as_slice()),
        None => DecodedMail {
            subject: String::new(),
            from: String::new(),
            to: String::new(),
            date: String::new(),
            body_text: None,
            body_html: None,
        },
    };
    let idb = default_id(folder, uid);
    EmailMessage {
        id: utf8_lossy(idb.as_slice()),
        uid,
        uid_string: Some(u32_to_string(uid)),
        from: dm.from,
        to: dm.to,
        subject: dm.subject,
        date: dm.date,
        body_text: dm.body_text,
        body_html: dm.body_html,
        attachments: Vec::new(),
        flags,
        folder: String::from_str(folder),
    }
}

/// Rebuilds the displayable message from a cached `.eml` file's bytes:
/// the parsed Message-ID (verbatim) names the message when present, else
/// the requested id does; the cached uid is not recoverable from the
/// bytes, so it reads as 0. Bytes the parser rejects yield nothing and
/// the caller falls back to the legacy per-message format.
pub fn build_cached_message(raw: &[u8], account_id: &str, email_id: &str) -> (r: Option<
    EmailMessage,
>)
    ensures
        r is Some <==> mime_parse_ok_of(raw@),
        r matches Some(m) ==> {
            &&& (match mime_message_id_of(raw@) {
                Some(v) => m.id@ == v,
                None => m.id@ == email_id@,
            })
            &&& m.uid == 0
            &&& m.uid_string is None
            &&& m.subject@ == spec_or_empty(mime_subject_of(raw@))
            &&& m.from@ == spec_format_address(mime_from_name_of(raw@), mime_from_addr_of(raw@))
            &&& m.to@ == spec_or_empty(mime_to_addr_of(raw@))
            &&& m.date@ == spec_or_empty(mime_date_of(raw@))
            &&& (m.body_text is Some <==> mime_body_text_of(raw@) is Some)
            &&& (m.body_text matches Some(t) ==> mime_body_text_of(raw@) matches Some(w) && t@
                == w)
            &&& (m.body_html is Some <==> mime_body_html_of(raw@) is Some)
            &&& (m.body_html matches Some(h) ==> mime_body_html_of(raw@) matches Some(w) && h@
                == w)
            &&& m.attachments@.len() == 0
            &&& m.flags@.len() == 0
            &&& m.folder@ == account_id@
        },
{
    if !mime_parse_ok(raw) {
        return None;
    }
    let id = match mime_message_id(raw) {
        Some(v) => v,
        None => String::from_str(email_id),
    };
    let from = format_address(mime_from_name(raw), mime_from_addr(raw));
    Some(
        EmailMessage {
            id,
            uid: 0,
            uid_string: None,
            from,
            to: or_empty(mime_to_addr(raw)),
            subject: or_empty(mime_subject(raw)),
            date: or_empty(mime_date(raw)),
            body_text: mime_body_text(raw),
            body_html: mime_body_html(raw),
            attachments: Vec::new(),
            flags: Vec::new(),
            folder: String::from_str(account_id),
        },
    )
}

} // verus!
