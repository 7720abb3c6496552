//! Local store logic: the metadata-only index, message identities,
//! flag updates, deletion plans and cache paging. All file access stays
//! with the caller; this module computes what to read, write and remove.

use vstd::prelude::*;
use vstd::string::StringSliceAdditionalSpecFns;
use vstd::string::StringExecFns;
use vstd::string::StrSliceExecFns;
use crate::msg::EmailMessage;
use crate::msg::FolderSyncState;
use crate::textutil::char_whitespace;
use crate::textutil::char_whitespace_of;
use crate::textutil::chrono_now;
use crate::textutil::spec_timestamp_bytes;
use crate::paging::spec_page;
use crate::pop3::spec_parse_u32;
use crate::pop3::parse_u32;
use crate::textutil::copy_range;
use crate::textutil::spec_ascii_chars;
use crate::textutil::spec_decimal_bytes;
use crate::textutil::u32_to_string;
use crate::textutil::utf8_lossy;
use crate::textutil::utf8_lossy_of;

verus! {

/// Copies a vector of strings.
pub fn clone_strings(v: &Vec<String>) -> (r: Vec<String>)
    ensures
        r@ == v@,
{
    let mut r: Vec<String> = Vec::new();
    let mut i: usize = 0;
    while i < v.len()
        invariant
            0 <= i <= v@.len(),
            r@ == v@.subrange(0, i as int),
        decreases v@.len() - i,
    {
        r.push(v[i].clone());
        assert(r@ =~= v@.subrange(0, i + 1));
        i += 1;
    }
    assert(v@.subrange(0, v@.len() as int) =~= v@);
    r
}

/// Copies an optional string.
pub fn clone_opt_string(v: &Option<String>) -> (r: Option<String>)
    ensures
        r == *v,
{
    match v {
        Some(s) => Some(s.clone()),
        None => None,
    }
}

/// Copies one message, field by field.
pub fn clone_msg(m: &EmailMessage) -> (r: EmailMessage)
    ensures
        r.id == m.id,
        r.uid == m.uid,
        r.uid_string == m.uid_string,
        r.from == m.from,
        r.to == m.to,
        r.subject == m.subject,
        r.date == m.date,
        r.body_text == m.body_text,
        r.body_html == m.body_html,
        r.attachments@ == m.attachments@,
        r.flags@ == m.flags@,
        r.folder == m.folder,
{
    EmailMessage {
        id: m.id.clone(),
        uid: m.uid,
        uid_string: clone_opt_string(&m.uid_string),
        from: m.from.clone(),
        to: m.to.clone(),
        subject: m.subject.clone(),
        date: m.date.clone(),
        body_text: clone_opt_string(&m.body_text),
        body_html: clone_opt_string(&m.body_html),
        attachments: clone_strings(&m.attachments),
        flags: clone_strings(&m.flags),
        folder: m.folder.clone(),
    }
}

/// The index invariant: an index entry never carries populated bodies;
/// everything else survives unchanged.
pub open spec fn spec_index_entry_of(e: EmailMessage, m: EmailMessage) -> bool {
    &&& e.id == m.id
    &&& e.uid == m.uid
    &&& e.uid_string == m.uid_string
    &&& e.from == m.from
    &&& e.to == m.to
    &&& e.subject == m.subject
    &&& e.date == m.date
    &&& e.body_text is None
    &&& e.body_html is None
    &&& e.attachments@ == m.attachments@
    &&& e.flags@ == m.flags@
    &&& e.folder == m.folder
}

/// Builds the metadata-only entries that `index.json` persists: each
/// message with its bodies nulled, so the index never holds content.
pub fn strip_for_index(emails: &Vec<EmailMessage>) -> (r: Vec<EmailMessage>)
    ensures
        r@.len() == emails@.len(),
        forall|i: int| 0 <= i < r@.len() ==> spec_index_entry_of(#[trigger] r@[i], emails@[i]),
{
    let mut r: Vec<EmailMessage> = Vec::new();
    let mut i: usize = 0;
    while i < emails.len()
        invariant
            0 <= i <= emails@.len(),
            r@.len() == i,
            forall|j: int| 0 <= j < i ==> spec_index_entry_of(#[trigger] r@[j], emails@[j]),
        decreases emails@.len() - i,
    {
        let mut e = clone_msg(&emails[i]);
        e.body_text = None;
        e.body_html = None;
        r.push(e);
        i += 1;
    }
    r
}

/// The dedup key each index entry contributes: its UIDL unique id when
/// one exists, else its numeric uid in decimal.
pub open spec fn spec_entry_uid_key(m: EmailMessage) -> Seq<char> {
    match m.uid_string {
        Some(u) => u@,
        None => spec_ascii_chars(spec_decimal_bytes(m.uid as nat)),
    }
}

/// Collects each entry's server-side unique id, for duplicate detection
/// across syncs.
pub fn collect_uids(emails: &Vec<EmailMessage>) -> (r: Vec<String>)
    ensures
        r@.len() == emails@.len(),
        forall|i: int| 0 <= i < r@.len() ==> #[trigger] r@[i]@ == spec_entry_uid_key(emails@[i]),
{
    let mut r: Vec<String> = Vec::new();
    let mut i: usize = 0;
    while i < emails.len()
        invariant
            0 <= i <= emails@.len(),
            r@.len() == i,
            forall|j: int| 0 <= j < i ==> #[trigger] r@[j]@ == spec_entry_uid_key(emails@[j]),
        decreases emails@.len() - i,
    {
        let key = match &emails[i].uid_string {
            Some(u) => u.clone(),
            None => u32_to_string(emails[i].uid),
        };
        r.push(key);
        i += 1;
    }
    r
}

/// Index of the last underscore in `s`, or `-1` if there is none.
pub open spec fn spec_rfind_underscore(s: Seq<u8>) -> int
    decreases s.len(),
{
    if s.len() == 0 {
        -1
    } else if s.last() == 95 {
        s.len() - 1
    } else {
        spec_rfind_underscore(s.drop_last())
    }
}

/// `spec_rfind_underscore` finds the last underscore.
pub proof fn lemma_rfind_underscore(s: Seq<u8>)
    ensures
        -1 <= spec_rfind_underscore(s) < s.len(),
        spec_rfind_underscore(s) >= 0 ==> s[spec_rfind_underscore(s)] == 95,
        forall|i: int| spec_rfind_underscore(s) < i < s.len() ==> s[i] != 95,
    decreases s.len(),
{
    if s.len() > 0 && s.last() != 95 {
        lemma_rfind_underscore(s.drop_last());
        assert forall|i: int| spec_rfind_underscore(s) < i < s.len() implies s[i] != 95 by {
            if i < s.len() - 1 {
                assert(s.drop_last()[i] != 95);
            }
        }
    }
}

/// Finds the last underscore of a byte slice, as position + 1 (0 when
/// there is none).
fn rfind_underscore_end(s: &[u8]) -> (r: usize)
    ensures
        r == spec_rfind_underscore(s@) + 1,
{
    let mut k: usize = s.len();
    while k > 0 && s[k - 1] != 95
        invariant
            0 <= k <= s@.len(),
            forall|i: int| k <= i < s@.len() ==> s@[i] != 95,
        decreases k,
    {
        k -= 1;
    }
    proof {
        lemma_rfind_underscore(s@);
        let n = spec_rfind_underscore(s@);
        if k > 0 {
            if n < k - 1 {
                assert(s@[k - 1] != 95);
                assert(false);
            }
            if n > k - 1 {
                assert(s@[n] != 95);
                assert(false);
            }
        } else {
            if n >= 0 {
                assert(s@[n] != 95);
                assert(false);
            }
        }
    }
    k
}

/// The uid encoded in a message id of the shape `{folder}_{uid}`: the
/// part after the last underscore parsed as a number, else 0.
pub open spec fn spec_uid_of_id(s: Seq<u8>) -> u32 {
    match spec_parse_u32(s.skip(spec_rfind_underscore(s) + 1)) {
        Some(n) => n,
        None => 0u32,
    }
}

/// Extracts the server uid from a message id of the shape
/// `{folder}_{uid}`; ids without a parseable trailing number yield 0.
pub fn extract_uid_from_id(email_id: &str) -> (r: u32)
    ensures
        r == spec_uid_of_id(email_id.spec_bytes()),
{
    let bytes = email_id.as_bytes();
    let k = rfind_underscore_end(bytes);
    proof {
        lemma_rfind_underscore(bytes@);
    }
    let part = copy_range(bytes, k, bytes.len());
    proof {
        assert(part@ =~= bytes@.skip(spec_rfind_underscore(bytes@) + 1));
    }
    match parse_u32(part.as_slice()) {
        Some(n) => n,
        None => 0,
    }
}

/// The folder encoded in a message id of the shape `{folder}_{uid}`: the
/// part before the last underscore, or `INBOX` when there is none.
pub open spec fn spec_folder_of_id(s: Seq<u8>) -> Seq<char> {
    if spec_rfind_underscore(s) >= 0 {
        utf8_lossy_of(s.take(spec_rfind_underscore(s)))
    } else {
        "INBOX"@
    }
}

/// Extracts the folder name from a message id of the shape
/// `{folder}_{uid}`, defaulting to the inbox.
pub fn folder_from_id(email_id: &str) -> (r: String)
    ensures
        r@ == spec_folder_of_id(email_id.spec_bytes()),
{
    let bytes = email_id.as_bytes();
    let k = rfind_underscore_end(bytes);
    proof {
        lemma_rfind_underscore(bytes@);
    }
    if k > 0 {
        let part = copy_range(bytes, 0, k - 1);
        proof {
            assert(part@ =~= bytes@.take(spec_rfind_underscore(bytes@)));
        }
        utf8_lossy(part.as_slice())
    } else {
        String::from_str("INBOX")
    }
}

/// The index with every entry of the given id removed.
pub open spec fn spec_remove_id(s: Seq<EmailMessage>, id: Seq<char>) -> Seq<EmailMessage>
    decreases s.len(),
{
    if s.len() == 0 {
        Seq::empty()
    } else if s[0].id@ == id {
        spec_remove_id(s.skip(1), id)
    } else {
        seq![s[0]] + spec_remove_id(s.skip(1), id)
    }
}

/// Removing entries never lengthens the index.
pub proof fn lemma_remove_id_len(s: Seq<EmailMessage>, id: Seq<char>)
    ensures
        spec_remove_id(s, id).len() <= s.len(),
    decreases s.len(),
{
    if s.len() > 0 {
        lemma_remove_id_len(s.skip(1), id);
    }
}

/// Drops every index entry whose id matches: the local half of deleting
/// a message.
pub fn delete_from_index(index: Vec<EmailMessage>, email_id: &str) -> (r: Vec<EmailMessage>)
    ensures
        r@ == spec_remove_id(index@, email_id@),
{
    let needle = String::from_str(email_id);
    let mut rest = index;
    let mut r: Vec<EmailMessage> = Vec::new();
    let ghost orig = rest@;
    proof {
        assert(Seq::<EmailMessage>::empty() + spec_remove_id(rest@, email_id@) =~= spec_remove_id(
            rest@,
            email_id@,
        ));
    }
    while rest.len() > 0
        invariant
            spec_remove_id(orig, email_id@) == r@ + spec_remove_id(rest@, email_id@),
            needle@ == email_id@,
        decreases rest@.len(),
    {
        let ghost prev_rest = rest@;
        let ghost prev_r = r@;
        let m = rest.remove(0);
        proof {
            assert(prev_rest[0] == m);
            assert(rest@ =~= prev_rest.skip(1));
        }
        if !(m.id == needle) {
            r.push(m);
            proof {
                assert(r@ =~= prev_r + seq![m]);
                assert(prev_r + (seq![m] + spec_remove_id(rest@, email_id@)) =~= (prev_r
                    + seq![m]) + spec_remove_id(rest@, email_id@));
            }
        }
    }
    proof {
        assert(spec_remove_id(rest@, email_id@) =~= Seq::<EmailMessage>::empty());
        assert(r@ =~= spec_remove_id(orig, email_id@));
    }
    r
}

/// The two `.eml` names that deleting a message must remove from disk:
/// one named by the full id, one by the bare uid.
pub fn eml_candidates(email_id: &str, uid: u32) -> (r: Vec<String>)
    ensures
        r@.len() == 2,
        r@[0]@ == email_id@ + ".eml"@,
        r@[1]@ == spec_ascii_chars(spec_decimal_bytes(uid as nat)) + ".eml"@,
{
    let mut a = String::from_str(email_id);
    a.append(".eml");
    let mut b = u32_to_string(uid);
    b.append(".eml");
    let mut r: Vec<String> = Vec::new();
    r.push(a);
    r.push(b);
    r
}

/// Position of the first index entry with the given id, or the length.
pub open spec fn spec_first_id_match(s: Seq<EmailMessage>, id: Seq<char>) -> int
    decreases s.len(),
{
    if s.len() == 0 {
        0
    } else if s[0].id@ == id {
        0
    } else {
        1 + spec_first_id_match(s.skip(1), id)
    }
}

/// `spec_first_id_match` finds the first matching entry.
pub proof fn lemma_first_id_match(s: Seq<EmailMessage>, id: Seq<char>)
    ensures
        0 <= spec_first_id_match(s, id) <= s.len(),
        spec_first_id_match(s, id) < s.len() ==> s[spec_first_id_match(s, id)].id@ == id,
        forall|i: int| 0 <= i < spec_first_id_match(s, id) ==> s[i].id@ != id,
    decreases s.len(),
{
    if s.len() > 0 && s[0].id@ != id {
        lemma_first_id_match(s.skip(1), id);
        assert forall|i: int| 0 <= i < spec_first_id_match(s, id) implies s[i].id@ != id by {
            if i > 0 {
                assert(s.skip(1)[i - 1].id@ != id);
            }
        }
    }
}

/// The flag list contains the `Seen` flag.
pub open spec fn spec_has_seen(flags: Seq<String>) -> bool {
    exists|i: int| 0 <= i < flags.len() && flags[i]@ == "Seen"@
}

/// The flag list with every `Seen` flag removed.
pub open spec fn spec_remove_seen(flags: Seq<String>) -> Seq<String>
    decreases flags.len(),
{
    if flags.len() == 0 {
        Seq::empty()
    } else if flags[0]@ == "Seen"@ {
        spec_remove_seen(flags.skip(1))
    } else {
        seq![flags[0]] + spec_remove_seen(flags.skip(1))
    }
}

/// Tests a flag list for the `Seen` flag.
fn has_seen(flags: &Vec<String>) -> (r: bool)
    ensures
        r == spec_has_seen(flags@),
{
    let seen = String::from_str("Seen");
    let mut i: usize = 0;
    while i < flags.len()
        invariant
            0 <= i <= flags@.len(),
            seen@ == "Seen"@,
            forall|j: int| 0 <= j < i ==> flags@[j]@ != "Seen"@,
        decreases flags@.len() - i,
    {
        if flags[i] == seen {
            return true;
        }
        i += 1;
    }
    false
}

/// Marks the first index entry with the given id as read or unread:
/// reading adds one `Seen` flag only when none is present; unreading
/// removes every `Seen` flag. No other entry and no other field changes.
pub fn mark_read_update(index: Vec<EmailMessage>, email_id: &str, read: bool) -> (r: Vec<
    EmailMessage,
>)
    ensures
        r@.len() == index@.len(),
        forall|i: int| 0 <= i < index@.len() && i != spec_first_id_match(index@, email_id@)
            ==> #[trigger] r@[i] == index@[i],
        spec_first_id_match(index@, email_id@) < index@.len() ==> {
            let m = spec_first_id_match(index@, email_id@);
            let e = index@[m];
            let u = r@[m];
            &&& u.id == e.id
            &&& u.uid == e.uid
            &&& u.uid_string == e.uid_string
            &&& u.from == e.from
            &&& u.to == e.to
            &&& u.subject == e.subject
            &&& u.date == e.date
            &&& u.body_text == e.body_text
            &&& u.body_html == e.body_html
            &&& u.attachments@ == e.attachments@
            &&& u.folder == e.folder
            &&& (read && spec_has_seen(e.flags@) ==> u.flags@ == e.flags@)
            &&& (read && !spec_has_seen(e.flags@) ==> u.flags@.len() == e.flags@.len() + 1
                && u.flags@.take(e.flags@.len() as int) == e.flags@ && u.flags@.last()@
                == "Seen"@)
            &&& (!read ==> u.flags@ == spec_remove_seen(e.flags@))
        },
{
    let needle = String::from_str(email_id);
    let mut rest = index;
    let mut r: Vec<EmailMessage> = Vec::new();
    let ghost orig = rest@;
    let mut found = false;
    proof {
        lemma_first_id_match(orig, email_id@);
        assert(rest@ =~= orig.skip(0));
    }
    while rest.len() > 0
        invariant
            needle@ == email_id@,
            rest@ == orig.skip(r@.len() as int),
            r@.len() + rest@.len() == orig.len(),
            !found ==> spec_first_id_match(orig, email_id@) >= r@.len(),
            !found ==> (forall|i: int| 0 <= i < r@.len() ==> #[trigger] r@[i] == orig[i]),
            found ==> spec_first_id_match(orig, email_id@) < r@.len(),
            found ==> (forall|i: int|
                0 <= i < r@.len() && i != spec_first_id_match(orig, email_id@)
                    ==> #[trigger] r@[i] == orig[i]),
            found ==> ({
                let m = spec_first_id_match(orig, email_id@);
                let e = orig[m];
                let u = r@[m];
                &&& u.id == e.id
                &&& u.uid == e.uid
                &&& u.uid_string == e.uid_string
                &&& u.from == e.from
                &&& u.to == e.to
                &&& u.subject == e.subject
                &&& u.date == e.date
                &&& u.body_text == e.body_text
                &&& u.body_html == e.body_html
                &&& u.attachments@ == e.attachments@
                &&& u.folder == e.folder
                &&& (read && spec_has_seen(e.flags@) ==> u.flags@ == e.flags@)
                &&& (read && !spec_has_seen(e.flags@) ==> u.flags@.len() == e.flags@.len() + 1
                    && u.flags@.take(e.flags@.len() as int) == e.flags@ && u.flags@.last()@
                    == "Seen"@)
                &&& (!read ==> u.flags@ == spec_remove_seen(e.flags@))
            }),
        decreases rest@.len(),
    {
        let ghost prev_rest = rest@;
        let ghost prev_r = r@;
        let mut m = rest.remove(0);
        proof {
            assert(prev_rest[0] == m);
            assert(prev_rest[0] == orig[prev_r.len() as int]);
            assert(rest@ =~= prev_rest.skip(1));
            assert(rest@ =~= orig.skip(prev_r.len() as int + 1));
            lemma_first_id_match(orig, email_id@);
        }
        if !found && m.id == needle {
            proof {
                assert(orig[prev_r.len() as int] == m);
                assert forall|k: int| 0 <= k < prev_r.len() implies orig[k].id@
                    != email_id@ by {
                    assert(prev_r[k] == orig[k]);
                }
                lemma_first_match_at(orig, email_id@, prev_r.len() as int);
            }
            if read {
                if !has_seen(&m.flags) {
                    let ghost oldflags = m.flags@;
                    m.flags.push(String::from_str("Seen"));
                    proof {
                        assert(m.flags@.take(oldflags.len() as int) =~= oldflags);
                    }
                }
            } else {
                m.flags = remove_seen(m.flags);
            }
            found = true;
            r.push(m);
        } else {
            r.push(m);
            proof {
                if !found {
                    assert(orig[prev_r.len() as int] == m);
                    if spec_first_id_match(orig, email_id@) == prev_r.len() {
                        assert(orig[spec_first_id_match(orig, email_id@)].id@ == email_id@);
                        assert(false);
                    }
                }
            }
        }
    }
    proof {
        assert(orig.skip(r@.len() as int).len() == 0);
        assert(r@.len() == orig.len());
        if !found {
            lemma_first_id_match(orig, email_id@);
        }
    }
    r
}

/// A first match at `p` means `spec_first_id_match` returns `p`.
proof fn lemma_first_match_at(s: Seq<EmailMessage>, id: Seq<char>, p: int)
    requires
        0 <= p < s.len(),
        s[p].id@ == id,
        forall|i: int| 0 <= i < p ==> s[i].id@ != id,
    ensures
        spec_first_id_match(s, id) == p,
{
    lemma_first_id_match(s, id);
    let m = spec_first_id_match(s, id);
    if m < p {
        assert(s[m].id@ != id);
        assert(false);
    }
    if m > p {
        assert(s[p].id@ != id);
        assert(false);
    }
}

/// Removes every `Seen` flag from a flag list.
fn remove_seen(flags: Vec<String>) -> (r: Vec<String>)
    ensures
        r@ == spec_remove_seen(flags@),
{
    let seen = String::from_str("Seen");
    let mut rest = flags;
    let mut r: Vec<String> = Vec::new();
    let ghost orig = rest@;
    proof {
        assert(Seq::<String>::empty() + spec_remove_seen(rest@) =~= spec_remove_seen(rest@));
    }
    while rest.len() > 0
        invariant
            seen@ == "Seen"@,
            spec_remove_seen(orig) == r@ + spec_remove_seen(rest@),
        decreases rest@.len(),
    {
        let ghost prev_rest = rest@;
        let ghost prev_r = r@;
        let f = rest.remove(0);
        proof {
            assert(prev_rest[0] == f);
            assert(rest@ =~= prev_rest.skip(1));
        }
        if !(f == seen) {
            r.push(f);
            proof {
                assert(r@ =~= prev_r + seq![f]);
                assert(prev_r + (seq![f] + spec_remove_seen(rest@)) =~= (prev_r + seq![f])
                    + spec_remove_seen(rest@));
            }
        }
    }
    proof {
        assert(spec_remove_seen(rest@) =~= Seq::<String>::empty());
        assert(r@ =~= spec_remove_seen(orig));
    }
    r
}

/// Slices the cached index for display: `limit` entries starting at
/// `offset`, or everything from `offset` on when no limit is given.
pub fn slice_cached(index: Vec<EmailMessage>, offset: usize, limit: Option<usize>) -> (r: Vec<
    EmailMessage,
>)
    ensures
        (match limit {
            Some(l) => r@ == spec_page(index@, offset as nat, l as nat),
            None => r@ == (if offset as nat >= index@.len() {
                Seq::<EmailMessage>::empty()
            } else {
                index@.skip(offset as int)
            }),
        }),
{
    let ghost orig = index@;
    let mut v = index;
    let mut r: Vec<EmailMessage> = Vec::new();
    if offset >= v.len() {
        proof {
            assert(match limit {
                Some(l) => r@ == spec_page(orig, offset as nat, l as nat),
                None => r@ == Seq::<EmailMessage>::empty(),
            });
        }
        return r;
    }
    let end = match limit {
        Some(l) => {
            if l <= v.len() - offset {
                offset + l
            } else {
                v.len()
            }
        },
        None => v.len(),
    };
    let mut k: usize = 0;
    proof {
        assert(v@ =~= orig.skip(0));
    }
    while k < offset
        invariant
            0 <= k <= offset < orig.len(),
            v@ == orig.skip(k as int),
        decreases offset - k,
    {
        let ghost prev = v@;
        v.remove(0);
        proof {
            assert(v@ =~= prev.skip(1));
            assert(v@ =~= orig.skip(k + 1));
        }
        k += 1;
    }
    let mut j: usize = offset;
    while j < end
        invariant
            offset <= j <= end <= orig.len(),
            v@ == orig.skip(j as int),
            r@ == orig.subrange(offset as int, j as int),
        decreases end - j,
    {
        let ghost prev = v@;
        let m = v.remove(0);
        proof {
            assert(prev[0] == orig[j as int]);
            assert(v@ =~= prev.skip(1));
            assert(v@ =~= orig.skip(j + 1));
        }
        r.push(m);
        proof {
            assert(r@ =~= orig.subrange(offset as int, j + 1));
        }
        j += 1;
    }
    proof {
        assert(orig.skip(offset as int) =~= orig.subrange(offset as int, orig.len() as int));
    }
    r
}

/// Lexicographic order on display strings, by code point: `a >= b`.
/// The POP3 merge orders entries by their date strings this way.
pub open spec fn spec_lex_ge(a: Seq<char>, b: Seq<char>) -> bool
    decreases a.len() + b.len(),
{
    if b.len() == 0 {
        true
    } else if a.len() == 0 {
        false
    } else if (a[0] as u32) > (b[0] as u32) {
        true
    } else if (a[0] as u32) < (b[0] as u32) {
        false
    } else {
        spec_lex_ge(a.skip(1), b.skip(1))
    }
}

/// Any two strings compare one way or the other.
pub proof fn lemma_lex_ge_total(a: Seq<char>, b: Seq<char>)
    ensures
        spec_lex_ge(a, b) || spec_lex_ge(b, a),
    decreases a.len() + b.len(),
{
    if a.len() > 0 && b.len() > 0 && (a[0] as u32) == (b[0] as u32) {
        lemma_lex_ge_total(a.skip(1), b.skip(1));
    }
}

/// The order is transitive.
pub proof fn lemma_lex_ge_trans(a: Seq<char>, b: Seq<char>, c: Seq<char>)
    requires
        spec_lex_ge(a, b),
        spec_lex_ge(b, c),
    ensures
        spec_lex_ge(a, c),
    decreases a.len() + b.len() + c.len(),
{
    if c.len() == 0 {
    } else {
        assert(b.len() > 0);
        assert(a.len() > 0);
        if (a[0] as u32) == (b[0] as u32) && (b[0] as u32) == (c[0] as u32) {
            lemma_lex_ge_trans(a.skip(1), b.skip(1), c.skip(1));
        }
    }
}

/// Compares two strings lexicographically by code point.
pub fn lex_ge_str(a: &String, b: &String) -> (r: bool)
    ensures
        r == spec_lex_ge(a@, b@),
{
    let an = a.as_str().unicode_len();
    let bn = b.as_str().unicode_len();
    let mut i: usize = 0;
    proof {
        assert(a@.skip(0) =~= a@);
        assert(b@.skip(0) =~= b@);
    }
    while i < an && i < bn
        invariant
            0 <= i <= an,
            0 <= i <= bn,
            an == a@.len(),
            bn == b@.len(),
            spec_lex_ge(a@, b@) == spec_lex_ge(a@.skip(i as int), b@.skip(i as int)),
        decreases an - i,
    {
        let ca = a.as_str().get_char(i);
        let cb = b.as_str().get_char(i);
        proof {
            assert(a@.skip(i as int)[0] == a@[i as int]);
            assert(b@.skip(i as int)[0] == b@[i as int]);
        }
        if (ca as u32) > (cb as u32) {
            return true;
        }
        if (ca as u32) < (cb as u32) {
            return false;
        }
        proof {
            assert(a@.skip(i as int).skip(1) =~= a@.skip(i as int + 1));
            assert(b@.skip(i as int).skip(1) =~= b@.skip(i as int + 1));
        }
        i += 1;
    }
    if i >= bn {
        assert(b@.skip(i as int).len() == 0);
        true
    } else {
        assert(a@.skip(i as int).len() == 0);
        assert(b@.skip(i as int).len() > 0);
        false
    }
}

/// An id occurs somewhere in the index.
pub open spec fn spec_has_id(s: Seq<EmailMessage>, id: Seq<char>) -> bool {
    exists|i: int| 0 <= i < s.len() && s[i].id@ == id
}

/// Removing an id removes every occurrence of it and nothing gains one.
pub proof fn lemma_remove_id_ids(s: Seq<EmailMessage>, id: Seq<char>, other: Seq<char>)
    ensures
        !spec_has_id(spec_remove_id(s, id), id),
        spec_has_id(spec_remove_id(s, id), other) ==> spec_has_id(s, other),
    decreases s.len(),
{
    if s.len() > 0 {
        lemma_remove_id_ids(s.skip(1), id, other);
        let r = spec_remove_id(s, id);
        if s[0].id@ == id {
            if spec_has_id(r, id) {
                assert(false);
            }
            if spec_has_id(r, other) {
                let i = choose|i: int| 0 <= i < r.len() && r[i].id@ == other;
                assert(spec_has_id(s.skip(1), other));
                let j = choose|j: int| 0 <= j < s.skip(1).len() && s.skip(1)[j].id@ == other;
                assert(s[j + 1].id@ == other);
            }
        } else {
            let tail = spec_remove_id(s.skip(1), id);
            if spec_has_id(r, id) {
                let i = choose|i: int| 0 <= i < r.len() && r[i].id@ == id;
                if i == 0 {
                    assert(false);
                } else {
                    assert(tail[i - 1].id@ == id);
                    assert(spec_has_id(tail, id));
                    assert(false);
                }
            }
            if spec_has_id(r, other) {
                let i = choose|i: int| 0 <= i < r.len() && r[i].id@ == other;
                if i == 0 {
                    assert(s[0].id@ == other);
                } else {
                    assert(tail[i - 1].id@ == other);
                    assert(spec_has_id(tail, other));
                    let j = choose|j: int| 0 <= j < s.skip(1).len() && s.skip(1)[j].id@ == other;
                    assert(s[j + 1].id@ == other);
                }
            }
        }
    }
}

/// The index with later duplicates of each id dropped: the first entry
/// with a given id wins.
pub open spec fn spec_dedup_by_id(s: Seq<EmailMessage>) -> Seq<EmailMessage>
    decreases s.len(),
    via spec_dedup_by_id_decreases
{
    if s.len() == 0 {
        Seq::empty()
    } else {
        seq![s[0]] + spec_dedup_by_id(spec_remove_id(s.skip(1), s[0].id@))
    }
}

#[via_fn]
proof fn spec_dedup_by_id_decreases(s: Seq<EmailMessage>) {
    if s.len() > 0 {
        lemma_remove_id_len(s.skip(1), s[0].id@);
    }
}

/// No two entries share an id.
pub open spec fn spec_unique_ids(s: Seq<EmailMessage>) -> bool {
    forall|i: int, j: int| 0 <= i < j < s.len() ==> s[i].id@ != s[j].id@
}

/// Whatever id appears after deduplication appeared before it.
pub proof fn lemma_dedup_has(s: Seq<EmailMessage>, id: Seq<char>)
    ensures
        spec_has_id(spec_dedup_by_id(s), id) ==> spec_has_id(s, id),
    decreases s.len(),
{
    if s.len() > 0 {
        let rest = spec_remove_id(s.skip(1), s[0].id@);
        lemma_remove_id_len(s.skip(1), s[0].id@);
        lemma_dedup_has(rest, id);
        lemma_remove_id_ids(s.skip(1), s[0].id@, id);
        let d = spec_dedup_by_id(s);
        if spec_has_id(d, id) {
            let i = choose|i: int| 0 <= i < d.len() && d[i].id@ == id;
            if i == 0 {
                assert(s[0].id@ == id);
            } else {
                assert(spec_dedup_by_id(rest)[i - 1].id@ == id);
                assert(spec_has_id(spec_dedup_by_id(rest), id));
                assert(spec_has_id(s.skip(1), id));
                let j = choose|j: int| 0 <= j < s.skip(1).len() && s.skip(1)[j].id@ == id;
                assert(s[j + 1].id@ == id);
            }
        }
    }
}

/// Deduplication by id leaves each id at most once: the dedup policy of
/// the local store, stated of every input index.
pub proof fn lemma_dedup_unique_ids(s: Seq<EmailMessage>)
    ensures
        spec_unique_ids(spec_dedup_by_id(s)),
    decreases s.len(),
{
    if s.len() > 0 {
        let rest = spec_remove_id(s.skip(1), s[0].id@);
        lemma_remove_id_len(s.skip(1), s[0].id@);
        lemma_dedup_unique_ids(rest);
        let d = spec_dedup_by_id(s);
        assert forall|i: int, j: int| 0 <= i < j < d.len() implies d[i].id@ != d[j].id@ by {
            if i == 0 {
                if d[i].id@ == d[j].id@ {
                    assert(spec_dedup_by_id(rest)[j - 1].id@ == s[0].id@);
                    assert(spec_has_id(spec_dedup_by_id(rest), s[0].id@));
                    lemma_dedup_has(rest, s[0].id@);
                    lemma_remove_id_ids(s.skip(1), s[0].id@, s[0].id@);
                    assert(false);
                }
            } else {
                assert(d[i] == spec_dedup_by_id(rest)[i - 1]);
                assert(d[j] == spec_dedup_by_id(rest)[j - 1]);
            }
        }
    }
}

/// Stable insertion by date, newest first: the new entry goes in front
/// of the first strictly older one.
pub open spec fn spec_insert_by_date(s: Seq<EmailMessage>, x: EmailMessage) -> Seq<EmailMessage>
    decreases s.len(),
{
    if s.len() == 0 {
        seq![x]
    } else if !spec_lex_ge(s[0].date@, x.date@) {
        seq![x] + s
    } else {
        seq![s[0]] + spec_insert_by_date(s.skip(1), x)
    }
}

/// Stable sort by date string, newest first.
pub open spec fn spec_sort_by_date(l: Seq<EmailMessage>) -> Seq<EmailMessage>
    decreases l.len(),
{
    if l.len() == 0 {
        Seq::empty()
    } else {
        spec_insert_by_date(spec_sort_by_date(l.drop_last()), l.last())
    }
}

/// The dates never get newer along `s`.
pub open spec fn spec_sorted_by_date(s: Seq<EmailMessage>) -> bool {
    forall|i: int, j: int| 0 <= i < j < s.len() ==> spec_lex_ge(s[i].date@, s[j].date@)
}

/// Position where `spec_insert_by_date` places `x`.
pub open spec fn spec_insert_date_pos(s: Seq<EmailMessage>, x: EmailMessage) -> int
    decreases s.len(),
{
    if s.len() == 0 {
        0
    } else if !spec_lex_ge(s[0].date@, x.date@) {
        0
    } else {
        1 + spec_insert_date_pos(s.skip(1), x)
    }
}

/// `spec_insert_by_date` splices `x` in at `spec_insert_date_pos`.
pub proof fn lemma_insert_date_char(s: Seq<EmailMessage>, x: EmailMessage)
    ensures
        0 <= spec_insert_date_pos(s, x) <= s.len(),
        forall|i: int| 0 <= i < spec_insert_date_pos(s, x) ==> spec_lex_ge(s[i].date@, x.date@),
        spec_insert_date_pos(s, x) < s.len() ==> !spec_lex_ge(
            s[spec_insert_date_pos(s, x)].date@,
            x.date@,
        ),
        spec_insert_by_date(s, x) == s.insert(spec_insert_date_pos(s, x), x),
    decreases s.len(),
{
    if s.len() == 0 {
        assert(spec_insert_by_date(s, x) =~= s.insert(0, x));
    } else if !spec_lex_ge(s[0].date@, x.date@) {
        assert(spec_insert_by_date(s, x) =~= s.insert(0, x));
    } else {
        lemma_insert_date_char(s.skip(1), x);
        let p = spec_insert_date_pos(s, x);
        assert forall|i: int| 0 <= i < p implies spec_lex_ge(s[i].date@, x.date@) by {
            if i > 0 {
                assert(spec_lex_ge(s.skip(1)[i - 1].date@, x.date@));
            }
        }
        if p < s.len() {
            assert(s[p] == s.skip(1)[p - 1]);
        }
        assert(spec_insert_by_date(s, x) =~= s.insert(p, x));
    }
}

/// Inserting into a date-sorted list keeps it sorted.
pub proof fn lemma_insert_date_sorted(s: Seq<EmailMessage>, x: EmailMessage)
    requires
        spec_sorted_by_date(s),
    ensures
        spec_sorted_by_date(spec_insert_by_date(s, x)),
        spec_insert_by_date(s, x).len() == s.len() + 1,
{
    lemma_insert_date_char(s, x);
    let p = spec_insert_date_pos(s, x);
    let r = spec_insert_by_date(s, x);
    assert forall|i: int, j: int| 0 <= i < j < r.len() implies spec_lex_ge(
        r[i].date@,
        r[j].date@,
    ) by {
        assert(r == s.insert(p, x));
        if i < p && j < p {
        } else if i < p && j == p {
            assert(r[i] == s[i] && r[j] == x);
        } else if i == p && j > p {
            assert(r[i] == x && r[j] == s[j - 1]);
            if j - 1 >= p {
                if j - 1 == p {
                    lemma_lex_ge_total(s[p].date@, x.date@);
                } else {
                    lemma_lex_ge_total(s[p].date@, x.date@);
                    lemma_lex_ge_trans(x.date@, s[p].date@, s[j - 1].date@);
                }
            }
        } else if i < p && j > p {
            assert(r[i] == s[i] && r[j] == s[j - 1]);
        } else {
            assert(r[i] == s[i - 1] && r[j] == s[j - 1]);
        }
    }
}

/// The date sort is sorted and keeps the length.
pub proof fn lemma_sort_by_date_sorted(l: Seq<EmailMessage>)
    ensures
        spec_sorted_by_date(spec_sort_by_date(l)),
        spec_sort_by_date(l).len() == l.len(),
    decreases l.len(),
{
    if l.len() > 0 {
        lemma_sort_by_date_sorted(l.drop_last());
        lemma_insert_date_sorted(spec_sort_by_date(l.drop_last()), l.last());
    }
}

/// Inserting by date neither adds nor loses an id.
pub proof fn lemma_insert_date_has(s: Seq<EmailMessage>, x: EmailMessage, id: Seq<char>)
    ensures
        spec_has_id(spec_insert_by_date(s, x), id) <==> (spec_has_id(s, id) || x.id@ == id),
{
    lemma_insert_date_char(s, x);
    let p = spec_insert_date_pos(s, x);
    let r = spec_insert_by_date(s, x);
    assert(r == s.insert(p, x));
    if spec_has_id(r, id) {
        let i = choose|i: int| 0 <= i < r.len() && r[i].id@ == id;
        if i < p {
            assert(s[i].id@ == id);
        } else if i == p {
            assert(x.id@ == id);
        } else {
            assert(s[i - 1].id@ == id);
        }
    }
    if spec_has_id(s, id) {
        let j = choose|j: int| 0 <= j < s.len() && s[j].id@ == id;
        if j < p {
            assert(r[j].id@ == id);
        } else {
            assert(r[j + 1].id@ == id);
        }
    }
    if x.id@ == id {
        assert(r[p].id@ == id);
    }
}

/// Sorting by date keeps exactly the ids that went in.
pub proof fn lemma_sort_date_has(l: Seq<EmailMessage>, id: Seq<char>)
    ensures
        spec_has_id(spec_sort_by_date(l), id) <==> spec_has_id(l, id),
    decreases l.len(),
{
    if l.len() > 0 {
        let dl = l.drop_last();
        lemma_sort_date_has(dl, id);
        lemma_insert_date_has(spec_sort_by_date(dl), l.last(), id);
        if spec_has_id(l, id) {
            let i = choose|i: int| 0 <= i < l.len() && l[i].id@ == id;
            if i < l.len() - 1 {
                assert(dl[i].id@ == id);
            } else {
                assert(l.last().id@ == id);
            }
        }
        if spec_has_id(dl, id) {
            let i = choose|i: int| 0 <= i < dl.len() && dl[i].id@ == id;
            assert(l[i].id@ == id);
        }
    }
}

/// Sorting a uniquely-identified index keeps it uniquely identified:
/// reordering by date cannot reintroduce a duplicate id.
pub proof fn lemma_sort_date_unique(l: Seq<EmailMessage>)
    requires
        spec_unique_ids(l),
    ensures
        spec_unique_ids(spec_sort_by_date(l)),
    decreases l.len(),
{
    if l.len() > 0 {
        let dl = l.drop_last();
        let x = l.last();
        assert forall|i: int, j: int| 0 <= i < j < dl.len() implies dl[i].id@ != dl[j].id@ by {
            assert(l[i].id@ != l[j].id@);
        }
        lemma_sort_date_unique(dl);
        let sorted = spec_sort_by_date(dl);
        lemma_sort_by_date_sorted(dl);
        if spec_has_id(sorted, x.id@) {
            lemma_sort_date_has(dl, x.id@);
            let j = choose|j: int| 0 <= j < dl.len() && dl[j].id@ == x.id@;
            assert(l[j].id@ == l[l.len() - 1].id@);
            assert(false);
        }
        lemma_insert_date_char(sorted, x);
        let p = spec_insert_date_pos(sorted, x);
        let r = spec_insert_by_date(sorted, x);
        assert(r == sorted.insert(p, x));
        assert forall|i: int, j: int| 0 <= i < j < r.len() implies r[i].id@ != r[j].id@ by {
            if i == p && j == p {
            } else if i == p {
                assert(r[j] == sorted[j - 1]);
                if r[i].id@ == r[j].id@ {
                    assert(spec_has_id(sorted, x.id@));
                    assert(false);
                }
            } else if j == p {
                assert(r[i] == sorted[i]);
                if r[i].id@ == r[j].id@ {
                    assert(spec_has_id(sorted, x.id@));
                    assert(false);
                }
            } else {
                let si = if i < p {
                    i
                } else {
                    i - 1
                };
                let sj = if j < p {
                    j
                } else {
                    j - 1
                };
                assert(r[i] == sorted[si] && r[j] == sorted[sj]);
            }
        }
    }
}

/// The merge of a fetched page into an existing index: fetched entries
/// first, duplicates by id dropped (the fetched, fresher entry wins),
/// and the result ordered newest first by date string.
pub open spec fn spec_merge(existing: Seq<EmailMessage>, fetched: Seq<EmailMessage>) -> Seq<
    EmailMessage,
> {
    spec_sort_by_date(spec_dedup_by_id(fetched + existing))
}

/// Removes every entry with the given id.
fn remove_msgs_by_id(v: Vec<EmailMessage>, id: &String) -> (r: Vec<EmailMessage>)
    ensures
        r@ == spec_remove_id(v@, id@),
{
    let mut rest = v;
    let mut r: Vec<EmailMessage> = Vec::new();
    let ghost orig = rest@;
    proof {
        assert(Seq::<EmailMessage>::empty() + spec_remove_id(rest@, id@) =~= spec_remove_id(
            rest@,
            id@,
        ));
    }
    while rest.len() > 0
        invariant
            spec_remove_id(orig, id@) == r@ + spec_remove_id(rest@, id@),
        decreases rest@.len(),
    {
        let ghost prev_rest = rest@;
        let ghost prev_r = r@;
        let m = rest.remove(0);
        proof {
            assert(prev_rest[0] == m);
            assert(rest@ =~= prev_rest.skip(1));
        }
        if !(m.id == *id) {
            r.push(m);
            proof {
                assert(r@ =~= prev_r + seq![m]);
                assert(prev_r + (seq![m] + spec_remove_id(rest@, id@)) =~= (prev_r + seq![m])
                    + spec_remove_id(rest@, id@));
            }
        }
    }
    proof {
        assert(spec_remove_id(rest@, id@) =~= Seq::<EmailMessage>::empty());
        assert(r@ =~= spec_remove_id(orig, id@));
    }
    r
}

/// Concatenates fetched and existing entries, fetched first, and drops
/// later duplicates of each id: the fetched, fresher copy wins.
fn dedup_merge(existing: Vec<EmailMessage>, fetched: Vec<EmailMessage>) -> (r: Vec<EmailMessage>)
    ensures
        r@ == spec_dedup_by_id(fetched@ + existing@),
{
    let ghost eview = existing@;
    let ghost fview = fetched@;
    let mut combined = fetched;
    let mut ex = existing;
    while ex.len() > 0
        invariant
            combined@ + ex@ == fview + eview,
        decreases ex@.len(),
    {
        let ghost prev_c = combined@;
        let ghost prev_e = ex@;
        let m = ex.remove(0);
        combined.push(m);
        proof {
            assert(prev_e[0] == m);
            assert(ex@ =~= prev_e.skip(1));
            assert(combined@ + ex@ =~= prev_c + prev_e);
        }
    }
    proof {
        assert(combined@ =~= fview + eview);
    }
    let ghost cview = combined@;
    let mut rest = combined;
    let mut ded: Vec<EmailMessage> = Vec::new();
    proof {
        assert(Seq::<EmailMessage>::empty() + spec_dedup_by_id(rest@) =~= spec_dedup_by_id(rest@));
    }
    while rest.len() > 0
        invariant
            spec_dedup_by_id(cview) == ded@ + spec_dedup_by_id(rest@),
        decreases rest@.len(),
    {
        let ghost prev_rest = rest@;
        let ghost prev_d = ded@;
        let m = rest.remove(0);
        proof {
            assert(prev_rest[0] == m);
            assert(rest@ =~= prev_rest.skip(1));
        }
        let key = m.id.clone();
        let next = remove_msgs_by_id(rest, &key);
        proof {
            lemma_remove_id_len(prev_rest.skip(1), m.id@);
        }
        rest = next;
        ded.push(m);
        proof {
            assert(ded@ =~= prev_d + seq![m]);
            assert(prev_d + (seq![m] + spec_dedup_by_id(rest@)) =~= (prev_d + seq![m])
                + spec_dedup_by_id(rest@));
        }
    }
    proof {
        assert(spec_dedup_by_id(rest@) =~= Seq::<EmailMessage>::empty());
        assert(ded@ =~= spec_dedup_by_id(cview));
    }
    ded
}

/// Merges an IMAP page into the existing index: entries deduplicated by
/// id with the fetched copy winning, and the fetched page kept in front
/// in its re-fetch (newest-first) order, surviving older entries behind
/// it. IMAP pages carry no reliable date strings to re-sort by; the
/// fetch order is the order.
pub fn merge_fetched_first(existing: Vec<EmailMessage>, fetched: Vec<EmailMessage>) -> (r: Vec<
    EmailMessage,
>)
    ensures
        r@ == spec_dedup_by_id(fetched@ + existing@),
        spec_unique_ids(r@),
{
    proof {
        lemma_dedup_unique_ids(fetched@ + existing@);
    }
    dedup_merge(existing, fetched)
}

/// Merges a fetched POP3 page into the existing index: entries
/// deduplicated by id with the fetched copy winning, then ordered newest
/// first by date string comparison.
pub fn merge_by_id(existing: Vec<EmailMessage>, fetched: Vec<EmailMessage>) -> (r: Vec<
    EmailMessage,
>)
    ensures
        r@ == spec_merge(existing@, fetched@),
        spec_sorted_by_date(r@),
        spec_unique_ids(r@),
{
    proof {
        lemma_dedup_unique_ids(fetched@ + existing@);
        lemma_sort_date_unique(spec_dedup_by_id(fetched@ + existing@));
    }
    let ded = dedup_merge(existing, fetched);
    let dlen = ded.len();
    let ghost dview = ded@;
    proof {
        assert(dview.len() == dlen as int);
    }
    let mut src = ded;
    let mut r: Vec<EmailMessage> = Vec::new();
    let mut i: usize = 0;
    proof {
        assert(dview.take(0) =~= Seq::<EmailMessage>::empty());
    }
    while src.len() > 0
        invariant
            src@ == dview.skip(i as int),
            0 <= i <= dview.len() <= usize::MAX,
            i + src@.len() == dview.len(),
            r@ == spec_sort_by_date(dview.take(i as int)),
        decreases src@.len(),
    {
        let ghost prev_src = src@;
        let ghost prev_r = r@;
        let x = src.remove(0);
        proof {
            assert(prev_src[0] == x);
            assert(prev_src[0] == dview[i as int]);
            assert(src@ =~= prev_src.skip(1));
            assert(src@ =~= dview.skip(i as int + 1));
        }
        let mut p: usize = 0;
        while p < r.len() && lex_ge_str(&r[p].date, &x.date)
            invariant
                0 <= p <= r@.len(),
                forall|k: int| 0 <= k < p ==> spec_lex_ge(r@[k].date@, x.date@),
            decreases r@.len() - p,
        {
            p += 1;
        }
        proof {
            lemma_insert_date_char(prev_r, x);
            let q = spec_insert_date_pos(prev_r, x);
            if p < q {
                assert(spec_lex_ge(prev_r[p as int].date@, x.date@));
                assert(false);
            }
            if p > q {
                assert(q < prev_r.len() && !spec_lex_ge(prev_r[q].date@, x.date@));
                assert(false);
            }
        }
        r.insert(p, x);
        proof {
            assert(dview.take(i as int + 1).drop_last() =~= dview.take(i as int));
            assert(dview.take(i as int + 1).last() == dview[i as int]);
        }
        i += 1;
    }
    proof {
        assert(dview.take(dview.len() as int) =~= dview);
        lemma_sort_by_date_sorted(dview);
    }
    r
}

/// Trims Unicode whitespace from both ends of a string of characters.
pub open spec fn spec_char_trim_end(s: Seq<char>) -> Seq<char>
    decreases s.len(),
{
    if s.len() > 0 && char_whitespace_of(s.last()) {
        spec_char_trim_end(s.drop_last())
    } else {
        s
    }
}

pub open spec fn spec_char_trim_start(s: Seq<char>) -> Seq<char>
    decreases s.len(),
{
    if s.len() > 0 && char_whitespace_of(s[0]) {
        spec_char_trim_start(s.skip(1))
    } else {
        s
    }
}

pub open spec fn spec_char_trim(s: Seq<char>) -> Seq<char> {
    spec_char_trim_start(spec_char_trim_end(s))
}

/// Trims whitespace characters from both ends of a string.
pub fn char_trim(s: &str) -> (r: String)
    ensures
        r@ == spec_char_trim(s@),
{
    let n = s.unicode_len();
    let mut hi: usize = n;
    proof {
        assert(s@.take(n as int) =~= s@);
    }
    while hi > 0 && char_whitespace(s.get_char(hi - 1))
        invariant
            0 <= hi <= n,
            n == s@.len(),
            spec_char_trim_end(s@) == spec_char_trim_end(s@.take(hi as int)),
        decreases hi,
    {
        proof {
            assert(s@.take(hi as int).drop_last() =~= s@.take(hi - 1));
            assert(s@.take(hi as int).last() == s@[hi - 1]);
        }
        hi -= 1;
    }
    let ghost t = s@.take(hi as int);
    proof {
        if hi > 0 {
            assert(t.last() == s@[hi - 1]);
        }
        assert(spec_char_trim_end(t) == t);
    }
    let mut lo: usize = 0;
    proof {
        assert(t.skip(0) =~= t);
    }
    while lo < hi && char_whitespace(s.get_char(lo))
        invariant
            0 <= lo <= hi <= n,
            n == s@.len(),
            t == s@.take(hi as int),
            spec_char_trim_start(t) == spec_char_trim_start(t.skip(lo as int)),
        decreases hi - lo,
    {
        proof {
            assert(t.skip(lo as int)[0] == s@[lo as int]);
            assert(t.skip(lo as int).skip(1) =~= t.skip(lo as int + 1));
        }
        lo += 1;
    }
    proof {
        if lo < hi {
            assert(t.skip(lo as int)[0] == s@[lo as int]);
        }
        assert(spec_char_trim_start(t.skip(lo as int)) == t.skip(lo as int));
    }
    let piece = s.substring_char(lo, hi);
    proof {
        assert(piece@ =~= t.skip(lo as int));
    }
    piece.to_owned()
}

/// The sender address used for outbound mail: the bare account address
/// when the display name is blank or repeats the address, else
/// `"{name} <{address}>"` with the name as given.
pub open spec fn spec_smtp_from_address(name: Seq<char>, email: Seq<char>) -> Seq<char> {
    if spec_char_trim(name).len() == 0 || spec_char_trim(name) == email {
        email
    } else {
        name + " <"@ + email + ">"@
    }
}

/// Renders the sender for the SMTP envelope and `From` header.
pub fn smtp_from_address(from_name: &str, from_email: &str) -> (r: String)
    ensures
        r@ == spec_smtp_from_address(from_name@, from_email@),
{
    let trimmed = char_trim(from_name);
    let email = from_email.to_owned();
    if trimmed.as_str().unicode_len() == 0 || trimmed == email {
        email
    } else {
        let mut s = from_name.to_owned();
        s.append(" <");
        s.append(from_email);
        s.append(">");
        s
    }
}

/// The per-account mailbox directory: `{root}/Mailbox/{account}`.
pub fn mailbox_dir(root: &str, account_dir: &str) -> (r: String)
    ensures
        r@ == root@ + "/Mailbox/"@ + account_dir@,
{
    let mut s = root.to_owned();
    s.append("/Mailbox/");
    s.append(account_dir);
    s
}

/// The index file inside a mailbox directory.
pub fn index_path(dir: &str) -> (r: String)
    ensures
        r@ == dir@ + "/index.json"@,
{
    let mut s = dir.to_owned();
    s.append("/index.json");
    s
}

/// The sync-state file inside a mailbox directory.
pub fn sync_state_path(dir: &str) -> (r: String)
    ensures
        r@ == dir@ + "/sync_state.json"@,
{
    let mut s = dir.to_owned();
    s.append("/sync_state.json");
    s
}

/// The raw-message file of one id inside a mailbox directory.
pub fn eml_path(dir: &str, id: &str) -> (r: String)
    ensures
        r@ == dir@ + "/"@ + id@ + ".eml"@,
{
    let mut s = dir.to_owned();
    s.append("/");
    s.append(id);
    s.append(".eml");
    s
}

/// An account's storage directory name when no explicit id exists: the
/// address with `@` spelled out.
pub open spec fn spec_replace_at(s: Seq<char>) -> Seq<char>
    decreases s.len(),
{
    if s.len() == 0 {
        Seq::empty()
    } else if s[0] == '@' {
        "_at_"@ + spec_replace_at(s.skip(1))
    } else {
        seq![s[0]] + spec_replace_at(s.skip(1))
    }
}

/// Replaces each `@` of an address with `_at_`, for use as a directory
/// name.
pub fn account_dir_fallback(email: &str) -> (r: String)
    ensures
        r@ == spec_replace_at(email@),
{
    let n = email.unicode_len();
    let mut out = String::new();
    let mut i: usize = 0;
    proof {
        assert(email@.skip(0) =~= email@);
        assert(Seq::<char>::empty() + spec_replace_at(email@) =~= spec_replace_at(email@));
    }
    while i < n
        invariant
            0 <= i <= n,
            n == email@.len(),
            spec_replace_at(email@) == out@ + spec_replace_at(email@.skip(i as int)),
        decreases n - i,
    {
        let ghost prev = out@;
        let c = email.get_char(i);
        proof {
            assert(email@.skip(i as int)[0] == email@[i as int]);
            assert(email@.skip(i as int).skip(1) =~= email@.skip(i as int + 1));
        }
        if c == '@' {
            out.append("_at_");
            proof {
                assert(out@ =~= prev + "_at_"@);
            }
        } else {
            let piece = email.substring_char(i, i + 1);
            proof {
                assert(piece@ =~= seq![email@[i as int]]);
            }
            out.append(piece);
            proof {
                assert(out@ =~= prev + seq![email@[i as int]]);
            }
        }
        i += 1;
    }
    proof {
        assert(email@.skip(n as int).len() == 0);
        assert(out@ + Seq::<char>::empty() =~= out@);
    }
    out
}

/// The global configuration file in the user's home directory.
pub fn global_config_path(home: &str) -> (r: String)
    ensures
        r@ == home@ + "/.life-os-vault"@,
{
    let mut s = home.to_owned();
    s.append("/.life-os-vault");
    s
}

/// Builds the bookmark that a finished folder sync persists, stamped
/// with the caller-supplied clock reading.
pub fn make_sync_state(uid_validity: u32, last_uid: u32, now_secs: u64) -> (r: FolderSyncState)
    ensures
        r.uid_validity == uid_validity,
        r.last_uid == last_uid,
        r.last_sync@ == spec_ascii_chars(spec_timestamp_bytes(now_secs as nat)),
{
    FolderSyncState { uid_validity, last_uid, last_sync: chrono_now(now_secs) }
}

/// The default folder list shown when the mailbox directory does not
/// exist yet or holds no folders.
pub fn default_folders() -> (r: Vec<String>)
    ensures
        r@.len() == 5,
        r@[0]@ == "INBOX"@,
        r@[1]@ == "Sent"@,
        r@[2]@ == "Drafts"@,
        r@[3]@ == "Trash"@,
        r@[4]@ == "Archive"@,
{
    let mut r: Vec<String> = Vec::new();
    r.push(String::from_str("INBOX"));
    r.push(String::from_str("Sent"));
    r.push(String::from_str("Drafts"));
    r.push(String::from_str("Trash"));
    r.push(String::from_str("Archive"));
    r
}

} // verus!
