//! A verified mail synchronization core: IMAP/POP3 session logic, MIME
//! header decoding, and a local message store, with contracts proved by
//! Verus. Sockets, files and TLS stay with the caller; every protocol
//! decision, parser and store computation lives here.

pub mod errs;
pub mod header;
pub mod imap_session;
pub mod mime;
pub mod msg;
pub mod notes;
pub mod paging;
pub mod pop3;
pub mod store;
pub mod sync;
pub mod textutil;
pub mod transport;
