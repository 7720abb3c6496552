//! The sync orchestrator's decisions: protocol and transport resolution,
//! page assembly, and the laws that hold of a whole sync — an empty page
//! is never an error, and an unchanged mailbox yields the same ids twice.

use vstd::prelude::*;
use vstd::string::StringSliceAdditionalSpecFns;
use vstd::string::StringExecFns;
use crate::mime::build_imap_message;
use crate::mime::spec_default_id;
use crate::mime::spec_imap_msg;
use crate::msg::EmailMessage;
use crate::msg::ImapAccount;
use crate::msg::Protocol;
use crate::msg::Transport;
use crate::paging::spec_page;
use crate::pop3::spec_sort_desc;
use crate::store::account_dir_fallback;
use crate::store::spec_replace_at;
use crate::textutil::utf8_lossy_of;

verus! {

/// The conventional TLS submission ports: 993 for IMAP, 995 for POP3.
pub fn use_tls(port: u16) -> (r: bool)
    ensures
        r == (port == 993 || port == 995),
{
    port == 993 || port == 995
}

/// Resolves the transport mode from the port convention.
pub fn transport_of(port: u16) -> (r: Transport)
    ensures
        r == Transport::Tls <==> (port == 993 || port == 995),
{
    if port == 993 || port == 995 {
        Transport::Tls
    } else {
        Transport::Plain
    }
}

/// Resolves the protocol tag: the string `pop3` selects POP3, anything
/// else (a different tag, or none) selects IMAP.
pub fn protocol_of(protocol: &Option<String>) -> (r: Protocol)
    ensures
        r == Protocol::Pop3 <==> (protocol matches Some(p) && p@ == "pop3"@),
{
    let pop3 = String::from_str("pop3");
    match protocol {
        Some(p) => {
            if *p == pop3 {
                Protocol::Pop3
            } else {
                Protocol::Imap
            }
        },
        None => Protocol::Imap,
    }
}

/// Everything resolved once at the start of a sync call.
pub struct SyncPlan {
    pub protocol: Protocol,
    pub transport: Transport,
    pub account_dir: String,
}

/// Resolves protocol, transport and storage directory for one account:
/// the explicit account id names the directory when present, else the
/// address with `@` spelled out.
pub fn sync_plan(account: &ImapAccount) -> (r: SyncPlan)
    ensures
        r.protocol == Protocol::Pop3 <==> (account.protocol matches Some(p) && p@ == "pop3"@),
        r.transport == Transport::Tls <==> (account.imap_port == 993 || account.imap_port == 995),
        (match account.account_id {
            Some(id) => r.account_dir@ == id@,
            None => r.account_dir@ == spec_replace_at(account.email@),
        }),
{
    let account_dir = match &account.account_id {
        Some(id) => id.clone(),
        None => account_dir_fallback(account.email.as_str()),
    };
    SyncPlan {
        protocol: protocol_of(&account.protocol),
        transport: transport_of(account.imap_port),
        account_dir,
    }
}

/// One item of an IMAP fetch response: the server uid, the flag names,
/// and the raw RFC 822 bytes when the server sent them.
pub struct ImapFetchItem {
    pub uid: u32,
    pub flags: Vec<String>,
    pub raw: Option<Vec<u8>>,
}

/// The raw bytes of an item, viewed.
pub open spec fn spec_item_raw(it: ImapFetchItem) -> Option<Seq<u8>> {
    match it.raw {
        Some(b) => Some(b@),
        None => None,
    }
}

/// Builds the messages of one IMAP page from the fetch items and reverses
/// them, so the page comes back newest first: item `i` of the response
/// becomes message `len - 1 - i` of the page.
pub fn build_imap_page(folder: &str, items: Vec<ImapFetchItem>) -> (r: Vec<EmailMessage>)
    ensures
        r@.len() == items@.len(),
        forall|i: int| 0 <= i < r@.len() ==> spec_imap_msg(
            #[trigger] r@[i],
            folder@,
            folder.spec_bytes(),
            items@[items@.len() - 1 - i].uid,
            items@[items@.len() - 1 - i].flags@,
            spec_item_raw(items@[items@.len() - 1 - i]),
        ),
{
    let ghost iview = items@;
    let n = items.len();
    let mut src = items;
    let mut r: Vec<EmailMessage> = Vec::new();
    proof {
        assert(src@ =~= iview.take(src@.len() as int));
    }
    while src.len() > 0
        invariant
            src@.len() <= iview.len() == n,
            src@ == iview.take(src@.len() as int),
            r@.len() == n - src@.len(),
            forall|i: int| 0 <= i < r@.len() ==> spec_imap_msg(
                #[trigger] r@[i],
                folder@,
                folder.spec_bytes(),
                iview[n - 1 - i].uid,
                iview[n - 1 - i].flags@,
                spec_item_raw(iview[n - 1 - i]),
            ),
        decreases src@.len(),
    {
        let ghost prev = src@;
        let it = src.pop().unwrap();
        proof {
            assert(it == prev.last());
            assert(prev.last() == iview[prev.len() - 1]);
            assert(src@ =~= iview.take(src@.len() as int));
        }
        let ImapFetchItem { uid, flags, raw } = it;
        let ghost flags_view = flags@;
        let m = match &raw {
            Some(b) => build_imap_message(folder, uid, flags, Some(b)),
            None => build_imap_message(folder, uid, flags, None),
        };
        proof {
            assert(spec_imap_msg(
                m,
                folder@,
                folder.spec_bytes(),
                iview[n - 1 - r@.len()].uid,
                iview[n - 1 - r@.len()].flags@,
                spec_item_raw(iview[n - 1 - r@.len()]),
            ));
        }
        r.push(m);
    }
    r
}

/// A page built from items whose uids ascend (the order a sequence-range
/// fetch returns them in) is ordered newest first: uids descend along it.
pub proof fn lemma_imap_page_newest_first(items: Seq<ImapFetchItem>, msgs: Seq<EmailMessage>)
    requires
        msgs.len() == items.len(),
        forall|i: int, j: int| 0 <= i < j < items.len() ==> items[i].uid <= items[j].uid,
        forall|i: int| 0 <= i < msgs.len() ==> #[trigger] msgs[i].uid == items[items.len() - 1
            - i].uid,
    ensures
        forall|i: int, j: int| 0 <= i < j < msgs.len() ==> msgs[i].uid >= msgs[j].uid,
{
    assert forall|i: int, j: int| 0 <= i < j < msgs.len() implies msgs[i].uid >= msgs[j].uid by {
        assert(msgs[i].uid == items[items.len() - 1 - i].uid);
        assert(msgs[j].uid == items[items.len() - 1 - j].uid);
    }
}

/// Two syncs of one unchanged POP3 mailbox select the same page: the
/// pairs, and so the message ids derived from them, are identical.
pub proof fn lemma_pop3_page_deterministic(
    pairs: Seq<(u32, String)>,
    skip: nat,
    max: nat,
    r1: Seq<(u32, String)>,
    r2: Seq<(u32, String)>,
)
    requires
        r1 == spec_page(spec_sort_desc(pairs), skip, max),
        r2 == spec_page(spec_sort_desc(pairs), skip, max),
    ensures
        r1 == r2,
{
}

/// Two syncs of one unchanged IMAP folder derive identical id lists:
/// the id of each message is a function of the folder and the uid alone.
pub proof fn lemma_imap_ids_deterministic(
    folder: Seq<u8>,
    uids: Seq<u32>,
    ids1: Seq<Seq<char>>,
    ids2: Seq<Seq<char>>,
)
    requires
        ids1.len() == uids.len(),
        ids2.len() == uids.len(),
        forall|i: int| 0 <= i < uids.len() ==> #[trigger] ids1[i] == utf8_lossy_of(
            spec_default_id(folder, uids[i] as nat),
        ),
        forall|i: int| 0 <= i < uids.len() ==> #[trigger] ids2[i] == utf8_lossy_of(
            spec_default_id(folder, uids[i] as nat),
        ),
    ensures
        ids1 == ids2,
{
    assert(ids1 =~= ids2);
}

/// Messages of different folders can never collide on the fallback
/// identity: for one uid, distinct folder names yield distinct
/// `{folder}_{uid}` byte strings.
pub proof fn lemma_distinct_folder_ids(f1: Seq<u8>, f2: Seq<u8>, uid: nat)
    requires
        f1 != f2,
    ensures
        spec_default_id(f1, uid) != spec_default_id(f2, uid),
{
    if spec_default_id(f1, uid) == spec_default_id(f2, uid) {
        let d = crate::textutil::spec_decimal_bytes(uid);
        let a = spec_default_id(f1, uid);
        let b = spec_default_id(f2, uid);
        assert(a == f1 + seq![95u8] + d);
        assert(b == f2 + seq![95u8] + d);
        assert(a.len() == f1.len() + 1 + d.len());
        assert(b.len() == f2.len() + 1 + d.len());
        assert forall|i: int| 0 <= i < f1.len() implies f1[i] == f2[i] by {
            assert(a[i] == f1[i]);
            assert(b[i] == f2[i]);
        }
        assert(f1 =~= f2);
    }
}

} // verus!
