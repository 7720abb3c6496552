//! Transport-side buffering: an in-memory byte feed that the session
//! logic consumes, and the replay buffer that hands an already-consumed
//! greeting back to a downstream protocol client before live bytes.

use vstd::prelude::*;
use crate::errs::SyncError;
use crate::header::spec_find_pair;
use crate::header::find_pair_from;
use crate::textutil::copy_range;
use crate::textutil::utf8_lossy;
use crate::textutil::utf8_lossy_of;

verus! {

/// Bytes received from the peer, consumed front to back. The reader of a
/// socket appends what arrives; the session logic reads from the front.
pub struct ByteFeed {
    pub data: Vec<u8>,
    pub pos: usize,
}

impl ByteFeed {
    /// The read position never passes the end of the data.
    pub open spec fn wf(&self) -> bool {
        self.pos <= self.data@.len()
    }

    /// The bytes not yet consumed.
    pub open spec fn spec_remaining(&self) -> Seq<u8> {
        self.data@.skip(self.pos as int)
    }

    /// A feed over the given bytes, nothing consumed yet.
    pub fn new(data: Vec<u8>) -> (r: ByteFeed)
        ensures
            r.wf(),
            r.data@ == data@,
            r.pos == 0,
    {
        ByteFeed { data, pos: 0 }
    }

    /// Appends newly received bytes.
    pub fn push_bytes(&mut self, chunk: &[u8])
        requires
            old(self).wf(),
        ensures
            final(self).wf(),
            final(self).data@ == old(self).data@ + chunk@,
            final(self).pos == old(self).pos,
    {
        let mut i: usize = 0;
        while i < chunk.len()
            invariant
                0 <= i <= chunk@.len(),
                self.data@ == old(self).data@ + chunk@.subrange(0, i as int),
                self.pos == old(self).pos,
                self.wf(),
            decreases chunk@.len() - i,
        {
            self.data.push(chunk[i]);
            assert(self.data@ =~= old(self).data@ + chunk@.subrange(0, i + 1));
            i += 1;
        }
        assert(chunk@.subrange(0, chunk@.len() as int) =~= chunk@);
    }

    /// How many bytes remain unconsumed.
    pub fn remaining(&self) -> (r: usize)
        requires
            self.wf(),
        ensures
            r == self.spec_remaining().len(),
    {
        self.data.len() - self.pos
    }

    /// Consumes and returns up to `max` of the remaining bytes.
    pub fn read_up_to(&mut self, max: usize) -> (r: Vec<u8>)
        requires
            old(self).wf(),
        ensures
            final(self).wf(),
            final(self).data@ == old(self).data@,
            r@.len() <= max,
            r@ == old(self).spec_remaining().take(r@.len() as int),
            final(self).pos == old(self).pos + r@.len(),
            old(self).spec_remaining().len() >= max ==> r@.len() == max,
            old(self).spec_remaining().len() < max ==> r@.len() == old(
                self,
            ).spec_remaining().len(),
    {
        let rem = self.data.len() - self.pos;
        let take = if max <= rem {
            max
        } else {
            rem
        };
        let r = copy_range(self.data.as_slice(), self.pos, self.pos + take);
        proof {
            assert(r@ =~= old(self).spec_remaining().take(take as int));
        }
        self.pos = self.pos + take;
        r
    }
}

/// What reading one IMAP line yields from the remaining bytes: the
/// shortest CRLF-terminated prefix, capped at 8193 bytes as a guard
/// against a peer that never sends CRLF; nothing when the data runs out
/// before either bound.
pub open spec fn spec_read_line(s: Seq<u8>) -> Option<Seq<u8>> {
    let n = spec_find_pair(s, 13, 10);
    if n + 2 <= s.len() && n + 2 <= 8193 {
        Some(s.take(n + 2))
    } else if s.len() >= 8193 {
        Some(s.take(8193))
    } else {
        None
    }
}

/// Reads a single CRLF-terminated line from the feed, byte-exactly, with
/// the 8 KB safety cap; an exhausted feed is a transport failure.
pub fn read_imap_line(feed: &mut ByteFeed) -> (r: Result<Vec<u8>, SyncError>)
    requires
        old(feed).wf(),
    ensures
        final(feed).wf(),
        final(feed).data@ == old(feed).data@,
        (r is Ok <==> spec_read_line(old(feed).spec_remaining()) is Some),
        r matches Ok(l) ==> spec_read_line(old(feed).spec_remaining()) matches Some(w) && l@ == w
            && final(feed).pos == old(feed).pos + l@.len(),
        r matches Err(e) ==> e == SyncError::Fetch && final(feed).pos == old(feed).pos,
{
    let start = feed.pos;
    let len = feed.data.len();
    let ghost s = old(feed).spec_remaining();
    let p = find_pair_from(feed.data.as_slice(), start, 13, 10);
    proof {
        assert(p - start == spec_find_pair(s, 13, 10));
    }
    if len - p >= 2 && p - start <= 8191 {
        let line = copy_range(feed.data.as_slice(), start, p + 2);
        proof {
            assert(line@ =~= s.take(p + 2 - start));
        }
        feed.pos = p + 2;
        Ok(line)
    } else if len - start >= 8193 {
        let line = copy_range(feed.data.as_slice(), start, start + 8193);
        proof {
            assert(line@ =~= s.take(8193));
        }
        feed.pos = start + 8193;
        Ok(line)
    } else {
        Err(SyncError::Fetch)
    }
}

/// Reads one response chunk of at most 4096 bytes from the feed and
/// renders it as text, the way a plain POP3 exchange is consumed.
pub fn read_response(feed: &mut ByteFeed) -> (r: String)
    requires
        old(feed).wf(),
    ensures
        final(feed).wf(),
        final(feed).data@ == old(feed).data@,
        r@ == utf8_lossy_of(
            old(feed).spec_remaining().take(
                if old(feed).spec_remaining().len() < 4096 {
                    old(feed).spec_remaining().len() as int
                } else {
                    4096
                },
            ),
        ),
        final(feed).pos == old(feed).pos + (if old(feed).spec_remaining().len() < 4096 {
            old(feed).spec_remaining().len() as int
        } else {
            4096
        }),
{
    let chunk = feed.read_up_to(4096);
    utf8_lossy(chunk.as_slice())
}

/// The replay half of the buffered-replay transport: a consumed prefix
/// (such as a greeting read during the pre-auth handshake) is handed back
/// to the downstream reader before any live byte; once drained, every
/// later read delegates to the live stream.
pub struct ReplayBuffer {
    pub prefix: Vec<u8>,
    pub pos: usize,
    pub done: bool,
}

impl ReplayBuffer {
    /// The replay position never passes the end of the prefix.
    pub open spec fn wf(&self) -> bool {
        self.pos <= self.prefix@.len()
    }

    /// The prefix bytes not yet replayed.
    pub open spec fn spec_left(&self) -> Seq<u8> {
        self.prefix@.skip(self.pos as int)
    }

    /// A replay buffer primed with a consumed prefix.
    pub fn new(prefix: Vec<u8>) -> (r: ReplayBuffer)
        ensures
            r.wf(),
            r.prefix@ == prefix@,
            r.pos == 0,
            !r.done,
    {
        ReplayBuffer { prefix, pos: 0, done: false }
    }

    /// One read of at most `max` bytes: replayed prefix bytes while any
    /// are left, else the signal to delegate to the live stream from now
    /// on. A read that drains nothing flips the buffer to delegation, the
    /// way a zero-length buffered read does.
    pub fn read(&mut self, max: usize) -> (r: (Vec<u8>, bool))
        requires
            old(self).wf(),
        ensures
            final(self).wf(),
            final(self).prefix@ == old(self).prefix@,
            old(self).done ==> r.0@.len() == 0 && r.1 && *final(self) == *old(self),
            !old(self).done && (max == 0 || old(self).spec_left().len() == 0) ==> r.0@.len() == 0
                && r.1 && final(self).done && final(self).pos == old(self).pos,
            !old(self).done && max > 0 && old(self).spec_left().len() > 0 ==> {
                &&& !r.1
                &&& !final(self).done
                &&& r.0@ == old(self).spec_left().take(r.0@.len() as int)
                &&& r.0@.len() == (if old(self).spec_left().len() < max {
                    old(self).spec_left().len() as int
                } else {
                    max as int
                })
                &&& final(self).pos == old(self).pos + r.0@.len()
            },
    {
        if self.done {
            return (Vec::new(), true);
        }
        let rem = self.prefix.len() - self.pos;
        if max == 0 || rem == 0 {
            self.done = true;
            return (Vec::new(), true);
        }
        let take = if max <= rem {
            max
        } else {
            rem
        };
        let r = copy_range(self.prefix.as_slice(), self.pos, self.pos + take);
        proof {
            assert(r@ =~= old(self).spec_left().take(take as int));
        }
        self.pos = self.pos + take;
        (r, false)
    }
}

} // verus!
