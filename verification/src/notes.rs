//! Notes-listing support: the record parser for one listed note, an
//! explicit cache object with an injected clock, and result paging.

use vstd::prelude::*;
use vstd::string::StringSliceAdditionalSpecFns;
use crate::header::spec_find_byte;
use crate::header::find_byte_in;
use crate::paging::spec_page;
use crate::textutil::copy_range;
use crate::textutil::spec_trim;
use crate::textutil::trim_bytes;
use crate::textutil::utf8_lossy;
use crate::textutil::utf8_lossy_of;

verus! {

/// One note as listed from the notes application.
#[derive(Clone, Debug)]
pub struct AppleNote {
    pub id: String,
    pub name: String,
    pub content: String,
    pub created: Option<String>,
    pub modified: Option<String>,
    pub folder: String,
}

/// One page of notes together with the paging bookkeeping.
#[derive(Debug)]
pub struct AppleNotesResult {
    pub notes: Vec<AppleNote>,
    pub total: usize,
    pub has_more: bool,
}

/// `s` with `{` stripped from the start.
pub open spec fn spec_strip_brace_start(s: Seq<u8>) -> Seq<u8>
    decreases s.len(),
{
    if s.len() > 0 && s[0] == 123 {
        spec_strip_brace_start(s.skip(1))
    } else {
        s
    }
}

/// `s` with `}` stripped from the end.
pub open spec fn spec_strip_brace_end(s: Seq<u8>) -> Seq<u8>
    decreases s.len(),
{
    if s.len() > 0 && s.last() == 125 {
        spec_strip_brace_end(s.drop_last())
    } else {
        s
    }
}

/// A trimmed record with its surrounding braces removed.
pub open spec fn spec_record_body(s: Seq<u8>) -> Seq<u8> {
    spec_strip_brace_end(spec_strip_brace_start(spec_trim(s)))
}

/// Strips leading `{` and trailing `}` off a trimmed record.
fn strip_braces(s: &[u8]) -> (r: Vec<u8>)
    ensures
        r@ == spec_strip_brace_end(spec_strip_brace_start(s@)),
{
    let mut lo: usize = 0;
    proof {
        assert(s@.skip(0) =~= s@);
    }
    while lo < s.len() && s[lo] == 123
        invariant
            0 <= lo <= s@.len(),
            spec_strip_brace_start(s@) == spec_strip_brace_start(s@.skip(lo as int)),
        decreases s@.len() - lo,
    {
        proof {
            assert(s@.skip(lo as int)[0] == s@[lo as int]);
            assert(s@.skip(lo as int).skip(1) =~= s@.skip(lo as int + 1));
        }
        lo += 1;
    }
    proof {
        if lo < s@.len() {
            assert(s@.skip(lo as int)[0] == s@[lo as int]);
        }
        assert(spec_strip_brace_start(s@.skip(lo as int)) == s@.skip(lo as int));
    }
    let ghost t = s@.skip(lo as int);
    let mut hi: usize = s.len();
    proof {
        assert(t =~= s@.subrange(lo as int, s@.len() as int));
        assert(t.take(t.len() as int) =~= t);
    }
    while hi > lo && s[hi - 1] == 125
        invariant
            lo <= hi <= s@.len(),
            t == s@.skip(lo as int),
            spec_strip_brace_end(t) == spec_strip_brace_end(t.take(hi - lo as int)),
        decreases hi,
    {
        proof {
            assert(t.take(hi - lo as int).last() == s@[hi - 1]);
            assert(t.take(hi - lo as int).drop_last() =~= t.take(hi - 1 - lo as int));
        }
        hi -= 1;
    }
    proof {
        if hi > lo {
            assert(t.take(hi - lo as int).last() == s@[hi - 1]);
        }
        assert(spec_strip_brace_end(t.take(hi - lo as int)) == t.take(hi - lo as int));
    }
    let r = copy_range(s, lo, hi);
    proof {
        assert(r@ =~= t.take(hi - lo as int));
    }
    r
}

/// The four comma-separated fields of a note record, when the record has
/// at least three commas: id, name, content, folder (the last field keeps
/// any further commas). Each field is surrounded-whitespace-trimmed.
pub open spec fn spec_note_fields(b: Seq<u8>) -> Option<(Seq<u8>, Seq<u8>, Seq<u8>, Seq<u8>)> {
    let c1 = spec_find_byte(b, 44);
    if c1 >= b.len() {
        None
    } else {
        let c2 = c1 + 1 + spec_find_byte(b.skip(c1 + 1), 44);
        if c2 >= b.len() {
            None
        } else {
            let c3 = c2 + 1 + spec_find_byte(b.skip(c2 + 1), 44);
            if c3 >= b.len() {
                None
            } else {
                Some(
                    (
                        spec_trim(b.take(c1)),
                        spec_trim(b.subrange(c1 + 1, c2)),
                        spec_trim(b.subrange(c2 + 1, c3)),
                        spec_trim(b.skip(c3 + 1)),
                    ),
                )
            }
        }
    }
}

/// Parses one listed note record of the shape
/// `{id, name, content, folder}`: the record is trimmed, its braces are
/// stripped, and it must split into at least four comma-separated fields;
/// timestamps are not part of the listing.
pub fn parse_note_item(item: &str) -> (r: Option<AppleNote>)
    ensures
        r is Some <==> spec_note_fields(spec_record_body(item.spec_bytes())) is Some,
        r matches Some(n) ==> spec_note_fields(spec_record_body(item.spec_bytes())) matches Some(
            f,
        ) && {
            &&& n.id@ == utf8_lossy_of(f.0)
            &&& n.name@ == utf8_lossy_of(f.1)
            &&& n.content@ == utf8_lossy_of(f.2)
            &&& n.folder@ == utf8_lossy_of(f.3)
            &&& n.created is None
            &&& n.modified is None
        },
{
    let trimmed = trim_bytes(item.as_bytes());
    let body = strip_braces(trimmed.as_slice());
    let ghost b = spec_record_body(item.spec_bytes());
    proof {
        assert(body@ == b);
    }
    let blen = body.len();
    let c1 = find_byte_in(body.as_slice(), 0, blen, 44);
    proof {
        assert(body@.subrange(0, blen as int) =~= body@);
    }
    if c1 >= blen {
        return None;
    }
    let c2 = find_byte_in(body.as_slice(), c1 + 1, blen, 44);
    proof {
        assert(body@.subrange(c1 + 1, blen as int) =~= b.skip(c1 + 1));
    }
    if c2 >= blen {
        return None;
    }
    let c3 = find_byte_in(body.as_slice(), c2 + 1, blen, 44);
    proof {
        assert(body@.subrange(c2 + 1, blen as int) =~= b.skip(c2 + 1));
    }
    if c3 >= blen {
        return None;
    }
    let p0 = copy_range(body.as_slice(), 0, c1);
    let p1 = copy_range(body.as_slice(), c1 + 1, c2);
    let p2 = copy_range(body.as_slice(), c2 + 1, c3);
    let p3 = copy_range(body.as_slice(), c3 + 1, blen);
    proof {
        assert(p0@ =~= b.take(c1 as int));
        assert(p1@ =~= b.subrange(c1 + 1, c2 as int));
        assert(p2@ =~= b.subrange(c2 + 1, c3 as int));
        assert(p3@ =~= b.skip(c3 + 1));
    }
    let id = utf8_lossy(trim_bytes(p0.as_slice()).as_slice());
    let name = utf8_lossy(trim_bytes(p1.as_slice()).as_slice());
    let content = utf8_lossy(trim_bytes(p2.as_slice()).as_slice());
    let folder = utf8_lossy(trim_bytes(p3.as_slice()).as_slice());
    Some(AppleNote { id, name, content, created: None, modified: None, folder })
}

/// A process-local cache of the notes listing, aged against a clock
/// reading that the caller injects, so the logic itself never reads a
/// wall clock.
pub struct NotesCache {
    pub notes: Vec<AppleNote>,
    pub timestamp: u64,
}

impl NotesCache {
    /// An empty, stale cache.
    pub fn new() -> (r: NotesCache)
        ensures
            r.notes@.len() == 0,
            r.timestamp == 0,
    {
        NotesCache { notes: Vec::new(), timestamp: 0 }
    }

    /// Seconds since the cache was filled, given the time now; a clock
    /// that appears to run backwards reads as age zero.
    pub fn get_cache_age(&self, now: u64) -> (r: u64)
        ensures
            r == (if now >= self.timestamp {
                now - self.timestamp
            } else {
                0
            }),
    {
        if now >= self.timestamp {
            now - self.timestamp
        } else {
            0
        }
    }

    /// Empties the cache and resets its timestamp, forcing the next
    /// lookup to reload.
    pub fn invalidate_cache(&mut self)
        ensures
            final(self).notes@.len() == 0,
            final(self).timestamp == 0,
    {
        self.notes = Vec::new();
        self.timestamp = 0;
    }

    /// Replaces the cached listing, stamped with the time now.
    pub fn store(&mut self, notes: Vec<AppleNote>, now: u64)
        ensures
            final(self).notes@ == notes@,
            final(self).timestamp == now,
    {
        self.notes = notes;
        self.timestamp = now;
    }
}

/// Pages an already-filtered notes listing: `limit` entries starting at
/// `offset`, the total count, and whether more pages follow.
pub fn page_notes(notes: Vec<AppleNote>, offset: usize, limit: usize) -> (r: AppleNotesResult)
    ensures
        r.notes@ == spec_page(notes@, offset as nat, limit as nat),
        r.total == notes@.len(),
        r.has_more == (offset + limit < notes@.len()),
{
    let total = notes.len();
    let has_more = offset < total && limit < total - offset;
    let ghost nview = notes@;
    let mut v = notes;
    let mut page: Vec<AppleNote> = Vec::new();
    if offset >= total {
        proof {
            assert(page@ =~= spec_page(nview, offset as nat, limit as nat));
        }
        return AppleNotesResult { notes: page, total, has_more };
    }
    let end = if limit <= total - offset {
        offset + limit
    } else {
        total
    };
    let mut k: usize = 0;
    proof {
        assert(v@ =~= nview.skip(0));
    }
    while k < offset
        invariant
            0 <= k <= offset < nview.len(),
            v@ == nview.skip(k as int),
        decreases offset - k,
    {
        let ghost prev = v@;
        v.remove(0);
        proof {
            assert(v@ =~= prev.skip(1));
            assert(v@ =~= nview.skip(k + 1));
        }
        k += 1;
    }
    let mut j: usize = offset;
    while j < end
        invariant
            offset <= j <= end <= nview.len(),
            v@ == nview.skip(j as int),
            page@ == nview.subrange(offset as int, j as int),
        decreases end - j,
    {
        let ghost prev = v@;
        let n = v.remove(0);
        proof {
            assert(prev[0] == nview[j as int]);
            assert(v@ =~= prev.skip(1));
            assert(v@ =~= nview.skip(j + 1));
        }
        page.push(n);
        proof {
            assert(page@ =~= nview.subrange(offset as int, j + 1));
        }
        j += 1;
    }
    proof {
        assert(page@ =~= spec_page(nview, offset as nat, limit as nat));
    }
    AppleNotesResult { notes: page, total, has_more }
}

} // verus!
