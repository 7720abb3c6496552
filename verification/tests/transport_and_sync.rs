use mailsync::errs::SyncError;
use mailsync::msg::ImapAccount;
use mailsync::msg::Protocol;
use mailsync::msg::Transport;
use mailsync::notes::page_notes;
use mailsync::notes::parse_note_item;
use mailsync::notes::AppleNote;
use mailsync::notes::NotesCache;
use mailsync::sync::build_imap_page;
use mailsync::sync::sync_plan;
use mailsync::sync::transport_of;
use mailsync::sync::use_tls;
use mailsync::sync::ImapFetchItem;
use mailsync::transport::read_imap_line;
use mailsync::transport::read_response;
use mailsync::transport::ByteFeed;
use mailsync::transport::ReplayBuffer;

fn account(protocol: Option<&str>, port: u16, account_id: Option<&str>) -> ImapAccount {
    ImapAccount {
        email: "user@example.com".to_string(),
        password: "hunter2".to_string(),
        imap_host: "mail.example.com".to_string(),
        imap_port: port,
        protocol: protocol.map(|s| s.to_string()),
        account_id: account_id.map(|s| s.to_string()),
    }
}

#[test]
fn feed_reads_greeting_line() {
    let mut feed = ByteFeed::new(b"* OK ready\r\nA001 OK\r\n".to_vec());
    let line = read_imap_line(&mut feed).unwrap();
    assert_eq!(line, b"* OK ready\r\n".to_vec());
    let line2 = read_imap_line(&mut feed).unwrap();
    assert_eq!(line2, b"A001 OK\r\n".to_vec());
}

#[test]
fn feed_without_terminator_is_a_fetch_error() {
    let mut feed = ByteFeed::new(b"no line ending".to_vec());
    assert_eq!(read_imap_line(&mut feed), Err(SyncError::Fetch));
}

#[test]
fn feed_caps_endless_line() {
    let mut feed = ByteFeed::new(vec![b'x'; 9000]);
    let line = read_imap_line(&mut feed).unwrap();
    assert_eq!(line.len(), 8193);
}

#[test]
fn feed_push_then_read_response() {
    let mut feed = ByteFeed::new(Vec::new());
    feed.push_bytes(b"+OK 2 messages\r\n");
    let resp = read_response(&mut feed);
    assert_eq!(resp, "+OK 2 messages\r\n");
    assert_eq!(feed.remaining(), 0);
}

#[test]
fn replay_buffer_drains_prefix_then_delegates() {
    let mut rb = ReplayBuffer::new(b"* OK greeting\r\n".to_vec());
    let (chunk, delegate) = rb.read(5);
    assert_eq!(chunk, b"* OK ".to_vec());
    assert!(!delegate);
    let (chunk, delegate) = rb.read(100);
    assert_eq!(chunk, b"greeting\r\n".to_vec());
    assert!(!delegate);
    let (chunk, delegate) = rb.read(100);
    assert!(chunk.is_empty());
    assert!(delegate);
    let (chunk, delegate) = rb.read(100);
    assert!(chunk.is_empty());
    assert!(delegate);
}

#[test]
fn tls_port_convention() {
    assert!(use_tls(993));
    assert!(use_tls(995));
    assert!(!use_tls(143));
    assert_eq!(transport_of(993), Transport::Tls);
    assert_eq!(transport_of(110), Transport::Plain);
}

#[test]
fn plan_resolves_protocol_and_directory() {
    let plan = sync_plan(&account(Some("pop3"), 995, Some("acct-7")));
    assert_eq!(plan.protocol, Protocol::Pop3);
    assert_eq!(plan.transport, Transport::Tls);
    assert_eq!(plan.account_dir, "acct-7");
    let plan = sync_plan(&account(None, 143, None));
    assert_eq!(plan.protocol, Protocol::Imap);
    assert_eq!(plan.transport, Transport::Plain);
    assert_eq!(plan.account_dir, "user_at_example.com");
}

fn item(uid: u32) -> ImapFetchItem {
    ImapFetchItem { uid, flags: Vec::new(), raw: None }
}

#[test]
fn imap_page_reversed_newest_first() {
    let page = build_imap_page("INBOX", vec![item(40), item(41), item(42)]);
    let uids: Vec<u32> = page.iter().map(|m| m.uid).collect();
    assert_eq!(uids, vec![42, 41, 40]);
    assert_eq!(page[0].id, "INBOX_42");
}

#[test]
fn same_uid_in_two_folders_gets_distinct_ids() {
    let inbox = build_imap_page("INBOX", vec![item(42)]);
    let sent = build_imap_page("Sent", vec![item(42)]);
    assert_eq!(inbox[0].id, "INBOX_42");
    assert_eq!(sent[0].id, "Sent_42");
    assert_ne!(inbox[0].id, sent[0].id);
}

#[test]
fn two_identical_syncs_yield_identical_ids() {
    let ids1: Vec<String> = build_imap_page("INBOX", vec![item(1), item(2), item(3)])
        .into_iter()
        .map(|m| m.id)
        .collect();
    let ids2: Vec<String> = build_imap_page("INBOX", vec![item(1), item(2), item(3)])
        .into_iter()
        .map(|m| m.id)
        .collect();
    assert_eq!(ids1, ids2);
}

#[test]
fn note_record_parses_four_fields() {
    let note = parse_note_item("{note-1, Groceries, milk and eggs, Personal}").unwrap();
    assert_eq!(note.id, "note-1");
    assert_eq!(note.name, "Groceries");
    assert_eq!(note.content, "milk and eggs");
    assert_eq!(note.folder, "Personal");
    assert!(note.created.is_none());
    assert!(note.modified.is_none());
}

#[test]
fn note_record_with_too_few_fields_is_rejected() {
    assert!(parse_note_item("{only, three, fields}").is_none());
}

#[test]
fn note_record_last_field_keeps_commas() {
    let note = parse_note_item("{i, n, c, folder, with, commas}").unwrap();
    assert_eq!(note.folder, "folder, with, commas");
}

#[test]
fn notes_cache_age_and_invalidation() {
    let mut cache = NotesCache::new();
    assert_eq!(cache.get_cache_age(50), 50);
    let notes = vec![AppleNote {
        id: "1".to_string(),
        name: "n".to_string(),
        content: "c".to_string(),
        created: None,
        modified: None,
        folder: "f".to_string(),
    }];
    cache.store(notes, 100);
    assert_eq!(cache.get_cache_age(130), 30);
    assert_eq!(cache.get_cache_age(90), 0);
    cache.invalidate_cache();
    assert!(cache.notes.is_empty());
    assert_eq!(cache.timestamp, 0);
}

#[test]
fn notes_paging_reports_more() {
    let mk = |i: u32| AppleNote {
        id: i.to_string(),
        name: String::new(),
        content: String::new(),
        created: None,
        modified: None,
        folder: String::new(),
    };
    let notes = vec![mk(1), mk(2), mk(3)];
    let page = page_notes(notes, 0, 2);
    assert_eq!(page.notes.len(), 2);
    assert_eq!(page.total, 3);
    assert!(page.has_more);
    let page = page_notes(vec![mk(1), mk(2), mk(3)], 2, 2);
    assert_eq!(page.notes.len(), 1);
    assert!(!page.has_more);
}
