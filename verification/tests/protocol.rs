use mailsync::paging::fetch_range;
use mailsync::pop3::parse_uidl_response;
use mailsync::pop3::pop3_page;
use mailsync::pop3::pop3_response_ok;
use mailsync::pop3::retr_complete;
use mailsync::pop3::strip_status_line;
use mailsync::imap_session::id_response_done;
use mailsync::imap_session::imap_id_command;
use mailsync::imap_session::imap_step;
use mailsync::imap_session::ImapAction;
use mailsync::imap_session::ImapEvent;
use mailsync::imap_session::ImapState;
use mailsync::errs::SyncError;

#[test]
fn fetch_range_newest_page() {
    // skip = 0 yields the newest `max` messages: [91, 100] of 100.
    assert_eq!(fetch_range(100, 0, 10), Some((91, 100)));
}

#[test]
fn fetch_range_older_page() {
    // skip = 20 yields the 10 messages just older than the newest 20.
    assert_eq!(fetch_range(100, 20, 10), Some((71, 80)));
}

#[test]
fn fetch_range_clamps_to_one() {
    assert_eq!(fetch_range(5, 0, 50), Some((1, 5)));
}

#[test]
fn fetch_range_skip_past_end_is_empty() {
    assert_eq!(fetch_range(10, 10, 5), None);
    assert_eq!(fetch_range(10, 25, 5), None);
    assert_eq!(fetch_range(0, 0, 5), None);
}

#[test]
fn fetch_range_zero_max_is_empty() {
    assert_eq!(fetch_range(10, 0, 0), None);
}

#[test]
fn uidl_two_entries() {
    let pairs = parse_uidl_response("1 abc\r\n2 def\r\n.\r\n");
    assert_eq!(pairs.len(), 2);
    assert_eq!(pairs[0].0, 1);
    assert_eq!(pairs[0].1, "abc");
    assert_eq!(pairs[1].0, 2);
    assert_eq!(pairs[1].1, "def");
}

#[test]
fn uidl_short_line_ignored() {
    let pairs = parse_uidl_response("1\r\n2 xy\r\n.\r\n");
    assert_eq!(pairs.len(), 1);
    assert_eq!(pairs[0].0, 2);
    assert_eq!(pairs[0].1, "xy");
}

#[test]
fn uidl_sentinel_stops_parsing() {
    let pairs = parse_uidl_response("1 a\r\n.\r\n2 b\r\n");
    assert_eq!(pairs.len(), 1);
    assert_eq!(pairs[0].0, 1);
    assert_eq!(pairs[0].1, "a");
}

#[test]
fn uidl_skips_status_and_blank_lines() {
    let pairs = parse_uidl_response("+OK 2 messages\r\n\r\n1 u1\r\n2 u2\r\n.\r\n");
    assert_eq!(pairs.len(), 2);
    assert_eq!(pairs[0].1, "u1");
}

#[test]
fn uidl_non_numeric_sequence_ignored() {
    let pairs = parse_uidl_response("x u1\r\n7 u7\r\n.\r\n");
    assert_eq!(pairs.len(), 1);
    assert_eq!(pairs[0].0, 7);
}

#[test]
fn uidl_overflowing_sequence_ignored() {
    let pairs = parse_uidl_response("99999999999 big\r\n3 ok\r\n.\r\n");
    assert_eq!(pairs.len(), 1);
    assert_eq!(pairs[0].0, 3);
}

#[test]
fn pop3_page_sorts_newest_first() {
    let pairs = vec![
        (1u32, "a".to_string()),
        (3u32, "c".to_string()),
        (2u32, "b".to_string()),
    ];
    let page = pop3_page(pairs, 0, 10);
    let seqs: Vec<u32> = page.iter().map(|p| p.0).collect();
    assert_eq!(seqs, vec![3, 2, 1]);
}

#[test]
fn pop3_page_skip_and_take() {
    let pairs = vec![
        (1u32, "a".to_string()),
        (2u32, "b".to_string()),
        (3u32, "c".to_string()),
        (4u32, "d".to_string()),
    ];
    let page = pop3_page(pairs, 1, 2);
    let seqs: Vec<u32> = page.iter().map(|p| p.0).collect();
    assert_eq!(seqs, vec![3, 2]);
}

#[test]
fn pop3_page_skip_past_end_is_empty() {
    let pairs = vec![(1u32, "a".to_string())];
    let page = pop3_page(pairs, 5, 2);
    assert!(page.is_empty());
}

#[test]
fn retr_terminator_detection() {
    assert!(retr_complete(b"+OK\r\nbody\r\n.\r\n"));
    assert!(retr_complete(b"partial\n.\n"));
    assert!(!retr_complete(b"+OK\r\nbody so far"));
    assert!(!retr_complete(b"dots . but no terminator"));
}

#[test]
fn strip_status_line_removes_ok_header() {
    assert_eq!(strip_status_line(b"+OK 120 octets\r\nFrom: x\r\n"), b"From: x\r\n");
    assert_eq!(strip_status_line(b"no crlf here"), b"no crlf here");
}

#[test]
fn pop3_ok_detection() {
    assert!(pop3_response_ok(b"+OK ready\r\n"));
    assert!(!pop3_response_ok(b"-ERR auth failed\r\n"));
}

#[test]
fn imap_empty_page_is_not_an_error() {
    // A folder whose messages are all skipped returns empty, no failure.
    let (state, action) = imap_step(ImapState::Authenticated, ImapEvent::SelectOk(5), true, 5, 10);
    assert_eq!(state, ImapState::FolderSelected);
    assert_eq!(action, ImapAction::ReturnEmpty);
}

#[test]
fn imap_select_computes_range() {
    let (_, action) = imap_step(ImapState::Authenticated, ImapEvent::SelectOk(100), true, 0, 10);
    assert_eq!(action, ImapAction::FetchRange(91, 100));
}

#[test]
fn imap_login_failure_is_terminal_auth_error() {
    let (state, action) =
        imap_step(ImapState::PreAuthIdentified, ImapEvent::LoginFailed, true, 0, 10);
    assert_eq!(state, ImapState::Failed);
    assert_eq!(action, ImapAction::Fail(SyncError::Auth));
}

#[test]
fn imap_tls_path_runs_id_exchange() {
    let (state, action) = imap_step(ImapState::Connected, ImapEvent::TlsOk, true, 0, 10);
    assert_eq!(state, ImapState::TlsEstablished);
    assert_eq!(action, ImapAction::ReadGreeting);
    let (state, action) = imap_step(state, ImapEvent::GreetingRead, true, 0, 10);
    assert_eq!(state, ImapState::Greeted);
    assert_eq!(action, ImapAction::SendId);
    let (state, action) = imap_step(state, ImapEvent::IdResponseDone, true, 0, 10);
    assert_eq!(state, ImapState::PreAuthIdentified);
    assert_eq!(action, ImapAction::SendLogin);
}

#[test]
fn imap_plain_path_skips_id_exchange() {
    let (state, action) = imap_step(ImapState::Connected, ImapEvent::TlsOk, false, 0, 10);
    assert_eq!(state, ImapState::TlsEstablished);
    assert_eq!(action, ImapAction::SendLogin);
}

#[test]
fn id_command_and_tagged_response() {
    let cmd = imap_id_command();
    assert!(cmd.starts_with("A000 ID ("));
    assert!(cmd.ends_with("\r\n"));
    assert!(id_response_done(b"A000 OK ID completed\r\n"));
    assert!(!id_response_done(b"* ID (\"name\" \"srv\")\r\n"));
}
