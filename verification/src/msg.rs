//! Data model: accounts, messages, folder sync state, SMTP configuration.

use vstd::prelude::*;

verus! {

/// Wire protocol of an account, resolved once at the start of a sync call.
#[derive(Clone, Copy, Debug, PartialEq, Eq, Structural)]
pub enum Protocol {
    Imap,
    Pop3,
}

/// Transport mode, derived from the conventional TLS port numbers.
#[derive(Clone, Copy, Debug, PartialEq, Eq, Structural)]
pub enum Transport {
    Plain,
    Tls,
}

/// One message as exchanged with the caller and persisted in the index.
///
/// `id` is the stable identity: a sanitized Message-ID when one exists,
/// else `{folder}_{uid}`. Index entries never carry populated bodies;
/// the raw bytes stay in the per-message `.eml` file.
#[derive(Clone, Debug, PartialEq)]
pub struct EmailMessage {
    pub id: String,
    pub uid: u32,
    pub uid_string: Option<String>,
    pub from: String,
    pub to: String,
    pub subject: String,
    pub date: String,
    pub body_text: Option<String>,
    pub body_html: Option<String>,
    pub attachments: Vec<String>,
    pub flags: Vec<String>,
    pub folder: String,
}

/// Account descriptor handed in by the caller; never persisted here.
#[derive(Clone, Debug)]
pub struct ImapAccount {
    pub email: String,
    pub password: String,
    pub imap_host: String,
    pub imap_port: u16,
    pub protocol: Option<String>,
    pub account_id: Option<String>,
}

/// Per-folder sync bookmark, persisted between sessions.
#[derive(Clone, Debug, PartialEq)]
pub struct FolderSyncState {
    pub uid_validity: u32,
    pub last_uid: u32,
    pub last_sync: String,
}

/// Metadata-only index entry pointing at a stored `.eml` file.
#[derive(Clone, Debug, PartialEq)]
pub struct EmailIndexEntry {
    pub uid: u32,
    pub message_id: Option<String>,
    pub subject: String,
    pub from: String,
    pub date: String,
    pub file: String,
    pub flags: Vec<String>,
}

/// Credentials and endpoint for the outbound SMTP submission path.
#[derive(Clone, Debug)]
pub struct SmtpConfig {
    pub from_email: String,
    pub from_name: String,
    pub password: String,
    pub smtp_host: String,
    pub smtp_port: u16,
}

/// One outbound message together with the account that sends it.
#[derive(Clone, Debug)]
pub struct SendEmailRequest {
    pub smtp: SmtpConfig,
    pub to: String,
    pub subject: String,
    pub body: String,
    pub in_reply_to: Option<String>,
}

} // verus!
