use mailsync::errs::SyncError;
use mailsync::msg::EmailMessage;
use mailsync::store::account_dir_fallback;
use mailsync::store::collect_uids;
use mailsync::store::default_folders;
use mailsync::store::delete_from_index;
use mailsync::store::eml_candidates;
use mailsync::store::eml_path;
use mailsync::store::extract_uid_from_id;
use mailsync::store::folder_from_id;
use mailsync::store::global_config_path;
use mailsync::store::index_path;
use mailsync::store::mailbox_dir;
use mailsync::store::make_sync_state;
use mailsync::store::mark_read_update;
use mailsync::store::merge_by_id;
use mailsync::store::merge_fetched_first;
use mailsync::store::slice_cached;
use mailsync::store::smtp_from_address;
use mailsync::store::strip_for_index;
use mailsync::store::sync_state_path;
use mailsync::textutil::chrono_now;
use mailsync::textutil::u32_to_string;

fn msg(id: &str, date: &str) -> EmailMessage {
    EmailMessage {
        id: id.to_string(),
        uid: 1,
        uid_string: None,
        from: String::new(),
        to: String::new(),
        subject: String::new(),
        date: date.to_string(),
        body_text: Some("body".to_string()),
        body_html: None,
        attachments: Vec::new(),
        flags: Vec::new(),
        folder: "INBOX".to_string(),
    }
}

#[test]
fn delete_removes_index_entry_and_names_both_eml_files() {
    // Deleting INBOX_42 drops its entry and removes INBOX_42.eml and 42.eml.
    let index = vec![msg("INBOX_42", "d1"), msg("INBOX_43", "d2")];
    let after = delete_from_index(index, "INBOX_42");
    assert_eq!(after.len(), 1);
    assert_eq!(after[0].id, "INBOX_43");
    let uid = extract_uid_from_id("INBOX_42");
    assert_eq!(uid, 42);
    let files = eml_candidates("INBOX_42", uid);
    assert_eq!(files, vec!["INBOX_42.eml".to_string(), "42.eml".to_string()]);
}

#[test]
fn id_parsing_roundtrips_folder_and_uid() {
    assert_eq!(extract_uid_from_id("INBOX_42"), 42);
    assert_eq!(folder_from_id("INBOX_42"), "INBOX");
    assert_eq!(extract_uid_from_id("My_Folder_7"), 7);
    assert_eq!(folder_from_id("My_Folder_7"), "My_Folder");
    assert_eq!(extract_uid_from_id("nounderscore"), 0);
    assert_eq!(folder_from_id("nounderscore"), "INBOX");
}

#[test]
fn mark_read_adds_seen_once() {
    let index = vec![msg("a", "d"), msg("b", "d")];
    let once = mark_read_update(index, "a", true);
    assert_eq!(once[0].flags, vec!["Seen".to_string()]);
    assert!(once[1].flags.is_empty());
    let twice = mark_read_update(once, "a", true);
    assert_eq!(twice[0].flags, vec!["Seen".to_string()]);
}

#[test]
fn mark_unread_removes_every_seen() {
    let mut m = msg("a", "d");
    m.flags = vec!["Seen".to_string(), "Flagged".to_string(), "Seen".to_string()];
    let after = mark_read_update(vec![m], "a", false);
    assert_eq!(after[0].flags, vec!["Flagged".to_string()]);
}

#[test]
fn merge_dedups_by_id_with_fetched_winning() {
    let mut old_copy = msg("x", "2024-01-01");
    old_copy.subject = "old".to_string();
    let mut new_copy = msg("x", "2024-01-01");
    new_copy.subject = "new".to_string();
    let merged = merge_by_id(vec![old_copy], vec![new_copy]);
    assert_eq!(merged.len(), 1);
    assert_eq!(merged[0].subject, "new");
}

#[test]
fn merge_orders_newest_first_by_date() {
    let merged = merge_by_id(
        vec![msg("a", "2024-01-01T00:00:00Z"), msg("c", "2024-03-01T00:00:00Z")],
        vec![msg("b", "2024-02-01T00:00:00Z")],
    );
    let ids: Vec<&str> = merged.iter().map(|m| m.id.as_str()).collect();
    assert_eq!(ids, vec!["c", "b", "a"]);
}

#[test]
fn index_entries_never_carry_bodies() {
    let stripped = strip_for_index(&vec![msg("a", "d")]);
    assert!(stripped[0].body_text.is_none());
    assert!(stripped[0].body_html.is_none());
    assert_eq!(stripped[0].id, "a");
}

#[test]
fn collect_uids_prefers_uid_string() {
    let mut a = msg("a", "d");
    a.uid_string = Some("u-9".to_string());
    let mut b = msg("b", "d");
    b.uid = 31;
    b.uid_string = None;
    let keys = collect_uids(&vec![a, b]);
    assert_eq!(keys, vec!["u-9".to_string(), "31".to_string()]);
}

#[test]
fn slice_cached_pages_the_index() {
    let index = vec![msg("a", "d"), msg("b", "d"), msg("c", "d")];
    let page = slice_cached(index, 1, Some(1));
    assert_eq!(page.len(), 1);
    assert_eq!(page[0].id, "b");
    let rest = slice_cached(vec![msg("a", "d"), msg("b", "d")], 1, None);
    assert_eq!(rest.len(), 1);
    assert_eq!(rest[0].id, "b");
    let empty = slice_cached(vec![msg("a", "d")], 5, Some(2));
    assert!(empty.is_empty());
}

#[test]
fn epoch_renders_as_iso_timestamp() {
    assert_eq!(chrono_now(0), "1970-01-01T00:00:00Z");
    assert_eq!(chrono_now(86400 + 3661), "1970-01-02T01:01:01Z");
}

#[test]
fn decimal_rendering() {
    assert_eq!(u32_to_string(0), "0");
    assert_eq!(u32_to_string(4294967295), "4294967295");
}

#[test]
fn smtp_sender_formatting() {
    assert_eq!(smtp_from_address("Ann", "a@b.c"), "Ann <a@b.c>");
    assert_eq!(smtp_from_address("  ", "a@b.c"), "a@b.c");
    assert_eq!(smtp_from_address("a@b.c", "a@b.c"), "a@b.c");
    assert_eq!(smtp_from_address(" Ann ", "a@b.c"), " Ann  <a@b.c>");
}

#[test]
fn storage_paths() {
    let dir = mailbox_dir("/vault", "acct1");
    assert_eq!(dir, "/vault/Mailbox/acct1");
    assert_eq!(index_path(&dir), "/vault/Mailbox/acct1/index.json");
    assert_eq!(sync_state_path(&dir), "/vault/Mailbox/acct1/sync_state.json");
    assert_eq!(eml_path(&dir, "INBOX_42"), "/vault/Mailbox/acct1/INBOX_42.eml");
    assert_eq!(global_config_path("/home/u"), "/home/u/.life-os-vault");
}

#[test]
fn account_dir_fallback_spells_out_at() {
    assert_eq!(account_dir_fallback("a@b.c"), "a_at_b.c");
    assert_eq!(account_dir_fallback("plain"), "plain");
}

#[test]
fn sync_state_carries_clock_reading() {
    let st = make_sync_state(5, 99, 0);
    assert_eq!(st.uid_validity, 5);
    assert_eq!(st.last_uid, 99);
    assert_eq!(st.last_sync, "1970-01-01T00:00:00Z");
}

#[test]
fn default_folder_list() {
    let folders = default_folders();
    assert_eq!(
        folders,
        vec![
            "INBOX".to_string(),
            "Sent".to_string(),
            "Drafts".to_string(),
            "Trash".to_string(),
            "Archive".to_string(),
        ]
    );
}

#[test]
fn error_messages_name_the_failing_step() {
    assert_eq!(SyncError::Connect.message(), "connection failed");
    assert_eq!(SyncError::Tls.message(), "TLS handshake failed");
    assert_eq!(SyncError::Auth.message(), "login failed");
    assert_eq!(SyncError::Folder.message(), "folder selection failed");
    assert_eq!(SyncError::Fetch.message(), "fetch failed");
    assert_eq!(SyncError::LocalIo.message(), "local store access failed");
    assert_eq!(SyncError::NotFound.message(), "message not found");
    assert_eq!(SyncError::Send.message(), "send failed");
}

#[test]
fn imap_merge_keeps_fetch_order_first() {
    // The IMAP merge keeps the fetched page (already newest first) in
    // front; the fetched copy of a duplicate id wins.
    let merged = merge_fetched_first(
        vec![msg("new2", "stale"), msg("old1", "2030-01-01")],
        vec![msg("new2", "fresh"), msg("new1", "2020-04-04")],
    );
    let ids: Vec<&str> = merged.iter().map(|m| m.id.as_str()).collect();
    assert_eq!(ids, vec!["new2", "new1", "old1"]);
    assert_eq!(merged[0].date, "fresh");
}
