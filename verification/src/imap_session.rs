//! The IMAP session as a state machine: connect, optional TLS, greeting,
//! the vendor pre-auth `ID` exchange, login, folder selection and the
//! sequence-range fetch. The driving loop performs each action against
//! the socket and feeds the outcome back as an event.

use vstd::prelude::*;
use crate::errs::SyncError;
use crate::paging::fetch_range;
use crate::paging::spec_fetch_end;
use crate::paging::spec_fetch_start;

verus! {

/// Where an IMAP session stands.
#[derive(Clone, Copy, Debug, PartialEq, Eq, Structural)]
pub enum ImapState {
    Disconnected,
    Connected,
    TlsEstablished,
    Greeted,
    PreAuthIdentified,
    Authenticated,
    FolderSelected,
    LoggedOut,
    Failed,
}

/// What the driving loop reports back after performing an action.
#[derive(Clone, Copy, Debug, PartialEq, Eq, Structural)]
pub enum ImapEvent {
    TcpOpened,
    TcpFailed,
    TlsOk,
    TlsFailed,
    GreetingRead,
    IdResponseDone,
    LoginOk,
    LoginFailed,
    SelectOk(u32),
    SelectFailed,
    FetchOk,
    FetchFailed,
    LogoutDone,
}

/// What the driving loop is asked to do next.
#[derive(Clone, Copy, Debug, PartialEq, Eq, Structural)]
pub enum ImapAction {
    OpenTcp,
    StartTls,
    ReadGreeting,
    SendId,
    SendLogin,
    SelectFolder,
    FetchRange(u32, u32),
    ReturnEmpty,
    Logout,
    Fail(SyncError),
}

/// The transition relation of the session. The pre-auth `ID` exchange
/// happens only on the explicit-TLS path; login failure, folder failure
/// and transport failures are terminal; a selected folder whose page is
/// empty (nothing to fetch, or everything skipped) yields an empty result
/// rather than an error.
pub open spec fn spec_imap_step(
    state: ImapState,
    event: ImapEvent,
    use_tls: bool,
    skip: u32,
    max: u32,
) -> (ImapState, ImapAction) {
    match (state, event) {
        (ImapState::Disconnected, ImapEvent::TcpOpened) => (ImapState::Connected, ImapAction::StartTls),
        (ImapState::Disconnected, ImapEvent::TcpFailed) => (
            ImapState::Failed,
            ImapAction::Fail(SyncError::Connect),
        ),
        (ImapState::Connected, ImapEvent::TlsOk) => if use_tls {
            (ImapState::TlsEstablished, ImapAction::ReadGreeting)
        } else {
            (ImapState::TlsEstablished, ImapAction::SendLogin)
        },
        (ImapState::Connected, ImapEvent::TlsFailed) => (
            ImapState::Failed,
            ImapAction::Fail(SyncError::Tls),
        ),
        (ImapState::TlsEstablished, ImapEvent::GreetingRead) => (
            ImapState::Greeted,
            ImapAction::SendId,
        ),
        (ImapState::Greeted, ImapEvent::IdResponseDone) => (
            ImapState::PreAuthIdentified,
            ImapAction::SendLogin,
        ),
        (ImapState::TlsEstablished, ImapEvent::LoginOk) => (
            ImapState::Authenticated,
            ImapAction::SelectFolder,
        ),
        (ImapState::PreAuthIdentified, ImapEvent::LoginOk) => (
            ImapState::Authenticated,
            ImapAction::SelectFolder,
        ),
        (ImapState::TlsEstablished, ImapEvent::LoginFailed) => (
            ImapState::Failed,
            ImapAction::Fail(SyncError::Auth),
        ),
        (ImapState::PreAuthIdentified, ImapEvent::LoginFailed) => (
            ImapState::Failed,
            ImapAction::Fail(SyncError::Auth),
        ),
        (ImapState::Authenticated, ImapEvent::SelectOk(total)) => if skip < total && max > 0 {
            (
                ImapState::FolderSelected,
                ImapAction::FetchRange(
                    spec_fetch_start(total, skip, max) as u32,
                    spec_fetch_end(total, skip) as u32,
                ),
            )
        } else {
            (ImapState::FolderSelected, ImapAction::ReturnEmpty)
        },
        (ImapState::Authenticated, ImapEvent::SelectFailed) => (
            ImapState::Failed,
            ImapAction::Fail(SyncError::Folder),
        ),
        (ImapState::FolderSelected, ImapEvent::FetchOk) => (
            ImapState::FolderSelected,
            ImapAction::Logout,
        ),
        (ImapState::FolderSelected, ImapEvent::FetchFailed) => (
            ImapState::Failed,
            ImapAction::Fail(SyncError::Fetch),
        ),
        (ImapState::FolderSelected, ImapEvent::LogoutDone) => (
            ImapState::LoggedOut,
            ImapAction::ReturnEmpty,
        ),
        _ => (ImapState::Failed, ImapAction::Fail(SyncError::Fetch)),
    }
}

/// Advances the session by one event.
pub fn imap_step(state: ImapState, event: ImapEvent, use_tls: bool, skip: u32, max: u32) -> (r: (
    ImapState,
    ImapAction,
))
    ensures
        r == spec_imap_step(state, event, use_tls, skip, max),
{
    match (state, event) {
        (ImapState::Disconnected, ImapEvent::TcpOpened) => (ImapState::Connected, ImapAction::StartTls),
        (ImapState::Disconnected, ImapEvent::TcpFailed) => (
            ImapState::Failed,
            ImapAction::Fail(SyncError::Connect),
        ),
        (ImapState::Connected, ImapEvent::TlsOk) => if use_tls {
            (ImapState::TlsEstablished, ImapAction::ReadGreeting)
        } else {
            (ImapState::TlsEstablished, ImapAction::SendLogin)
        },
        (ImapState::Connected, ImapEvent::TlsFailed) => (
            ImapState::Failed,
            ImapAction::Fail(SyncError::Tls),
        ),
        (ImapState::TlsEstablished, ImapEvent::GreetingRead) => (
            ImapState::Greeted,
            ImapAction::SendId,
        ),
        (ImapState::Greeted, ImapEvent::IdResponseDone) => (
            ImapState::PreAuthIdentified,
            ImapAction::SendLogin,
        ),
        (ImapState::TlsEstablished, ImapEvent::LoginOk) => (
            ImapState::Authenticated,
            ImapAction::SelectFolder,
        ),
        (ImapState::PreAuthIdentified, ImapEvent::LoginOk) => (
            ImapState::Authenticated,
            ImapAction::SelectFolder,
        ),
        (ImapState::TlsEstablished, ImapEvent::LoginFailed) => (
            ImapState::Failed,
            ImapAction::Fail(SyncError::Auth),
        ),
        (ImapState::PreAuthIdentified, ImapEvent::LoginFailed) => (
            ImapState::Failed,
            ImapAction::Fail(SyncError::Auth),
        ),
        (ImapState::Authenticated, ImapEvent::SelectOk(total)) => {
            match fetch_range(total, skip, max) {
                Some((start, end)) => (ImapState::FolderSelected, ImapAction::FetchRange(start, end)),
                None => (ImapState::FolderSelected, ImapAction::ReturnEmpty),
            }
        },
        (ImapState::Authenticated, ImapEvent::SelectFailed) => (
            ImapState::Failed,
            ImapAction::Fail(SyncError::Folder),
        ),
        (ImapState::FolderSelected, ImapEvent::FetchOk) => (
            ImapState::FolderSelected,
            ImapAction::Logout,
        ),
        (ImapState::FolderSelected, ImapEvent::FetchFailed) => (
            ImapState::Failed,
            ImapAction::Fail(SyncError::Fetch),
        ),
        (ImapState::FolderSelected, ImapEvent::LogoutDone) => (
            ImapState::LoggedOut,
            ImapAction::ReturnEmpty,
        ),
        _ => (ImapState::Failed, ImapAction::Fail(SyncError::Fetch)),
    }
}

/// Skipping at least the whole mailbox never fails the session: the
/// selected folder yields an empty result instead.
pub proof fn lemma_empty_page_not_an_error(total: u32, skip: u32, max: u32, use_tls: bool)
    requires
        skip >= total || max == 0,
    ensures
        spec_imap_step(
            ImapState::Authenticated,
            ImapEvent::SelectOk(total),
            use_tls,
            skip,
            max,
        ) == (ImapState::FolderSelected, ImapAction::ReturnEmpty),
{
}

/// A rejected login is terminal for the whole sync call, on both the
/// pre-auth-identified and the plain path.
pub proof fn lemma_login_failure_terminal(state: ImapState, use_tls: bool, skip: u32, max: u32)
    requires
        state == ImapState::TlsEstablished || state == ImapState::PreAuthIdentified,
    ensures
        spec_imap_step(state, ImapEvent::LoginFailed, use_tls, skip, max) == (
            ImapState::Failed,
            ImapAction::Fail(SyncError::Auth),
        ),
{
}

/// The fixed `ID` command of the pre-auth identification exchange.
pub fn imap_id_command() -> (r: &'static str)
    ensures
        r@ == "A000 ID (\"name\" \"LifeOS\" \"version\" \"1.0.0\" \"vendor\" \"LifeOS\")\r\n"@,
{
    "A000 ID (\"name\" \"LifeOS\" \"version\" \"1.0.0\" \"vendor\" \"LifeOS\")\r\n"
}

/// The `ID` exchange is over once a line answers under the command's tag.
pub open spec fn spec_id_response_done(line: Seq<u8>) -> bool {
    line.len() >= 5 && line[0] == 65 && line[1] == 48 && line[2] == 48 && line[3] == 48 && line[4]
        == 32
}

/// Recognizes the tagged response that ends the `ID` exchange.
pub fn id_response_done(line: &[u8]) -> (r: bool)
    ensures
        r == spec_id_response_done(line@),
{
    line.len() >= 5 && line[0] == 65 && line[1] == 48 && line[2] == 48 && line[3] == 48 && line[4]
        == 32
}

} // verus!
