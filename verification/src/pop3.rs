//! POP3 session logic: UIDL enumeration parsing, newest-first paging over
//! the UIDL listing, RETR multi-line framing, and status-line handling.

use vstd::prelude::*;
use vstd::string::StringSliceAdditionalSpecFns;
use crate::errs::SyncError;
use crate::paging::spec_page;
use crate::textutil::copy_range;
use crate::textutil::space_byte;
use crate::textutil::spec_trim;
use crate::textutil::spec_lines;
use crate::textutil::spec_lines_view;
use crate::textutil::split_lines;
use crate::textutil::trim_bytes;
use crate::textutil::spec_space_byte;
use crate::textutil::utf8_lossy;
use crate::textutil::utf8_lossy_of;

verus! {

/// Length of the longest whitespace-free prefix of `s`: the first token
/// ends there.
pub open spec fn spec_span_token(s: Seq<u8>) -> int
    decreases s.len(),
{
    if s.len() == 0 {
        0
    } else if spec_space_byte(s[0]) {
        0
    } else {
        1 + spec_span_token(s.skip(1))
    }
}

/// `spec_span_token` finds the first whitespace byte.
pub proof fn lemma_span_token(s: Seq<u8>)
    ensures
        0 <= spec_span_token(s) <= s.len(),
        spec_span_token(s) < s.len() ==> spec_space_byte(s[spec_span_token(s)]),
        forall|i: int| 0 <= i < spec_span_token(s) ==> !spec_space_byte(s[i]),
    decreases s.len(),
{
    if s.len() > 0 && !spec_space_byte(s[0]) {
        lemma_span_token(s.skip(1));
        assert forall|i: int| 0 <= i < spec_span_token(s) implies !spec_space_byte(s[i]) by {
            if i > 0 {
                assert(!spec_space_byte(s.skip(1)[i - 1]));
            }
        }
    }
}

/// Length of the longest whitespace prefix of `s`.
pub open spec fn spec_span_space(s: Seq<u8>) -> int
    decreases s.len(),
{
    if s.len() == 0 {
        0
    } else if !spec_space_byte(s[0]) {
        0
    } else {
        1 + spec_span_space(s.skip(1))
    }
}

/// `spec_span_space` finds the first non-whitespace byte.
pub proof fn lemma_span_space(s: Seq<u8>)
    ensures
        0 <= spec_span_space(s) <= s.len(),
        spec_span_space(s) < s.len() ==> !spec_space_byte(s[spec_span_space(s)]),
        forall|i: int| 0 <= i < spec_span_space(s) ==> spec_space_byte(s[i]),
    decreases s.len(),
{
    if s.len() > 0 && spec_space_byte(s[0]) {
        lemma_span_space(s.skip(1));
        assert forall|i: int| 0 <= i < spec_span_space(s) implies spec_space_byte(s[i]) by {
            if i > 0 {
                assert(spec_space_byte(s.skip(1)[i - 1]));
            }
        }
    }
}

/// Finds the end of the whitespace-free run starting at `from`.
pub fn find_token_end(s: &[u8], from: usize) -> (r: usize)
    requires
        from <= s@.len(),
    ensures
        from <= r <= s@.len(),
        r - from == spec_span_token(s@.skip(from as int)),
{
    let mut k: usize = from;
    while k < s.len() && !space_byte(s[k])
        invariant
            from <= k <= s@.len(),
            forall|i: int| from <= i < k ==> !spec_space_byte(s@[i]),
        decreases s@.len() - k,
    {
        k += 1;
    }
    proof {
        let rest = s@.skip(from as int);
        lemma_span_token(rest);
        let n = spec_span_token(rest);
        if k - from < n {
            assert(rest[k - from] == s@[k as int]);
            assert(false);
        }
        if k - from > n {
            assert(s@[from + n] == rest[n]);
            assert(false);
        }
    }
    k
}

/// Finds the end of the whitespace run starting at `from`.
pub fn find_space_end(s: &[u8], from: usize) -> (r: usize)
    requires
        from <= s@.len(),
    ensures
        from <= r <= s@.len(),
        r - from == spec_span_space(s@.skip(from as int)),
{
    let mut k: usize = from;
    while k < s.len() && space_byte(s[k])
        invariant
            from <= k <= s@.len(),
            forall|i: int| from <= i < k ==> spec_space_byte(s@[i]),
        decreases s@.len() - k,
    {
        k += 1;
    }
    proof {
        let rest = s@.skip(from as int);
        lemma_span_space(rest);
        let n = spec_span_space(rest);
        if k - from < n {
            assert(rest[k - from] == s@[k as int]);
            assert(false);
        }
        if k - from > n {
            assert(s@[from + n] == rest[n]);
            assert(false);
        }
    }
    k
}

/// All bytes of `s` are ASCII decimal digits.
pub open spec fn spec_all_digits(s: Seq<u8>) -> bool {
    forall|i: int| 0 <= i < s.len() ==> 48 <= #[trigger] s[i] <= 57
}

/// The number that the digit string `s` denotes.
pub open spec fn spec_digits_val(s: Seq<u8>) -> int
    decreases s.len(),
{
    if s.len() == 0 {
        0
    } else {
        spec_digits_val(s.drop_last()) * 10 + (s.last() - 48)
    }
}

/// A digit string denotes a non-negative number.
pub proof fn lemma_digits_val_nonneg(s: Seq<u8>)
    requires
        spec_all_digits(s),
    ensures
        spec_digits_val(s) >= 0,
    decreases s.len(),
{
    if s.len() > 0 {
        assert(spec_all_digits(s.drop_last()));
        lemma_digits_val_nonneg(s.drop_last());
    }
}

/// A digit string denotes at least as much as any of its prefixes.
pub proof fn lemma_digits_val_monotone(s: Seq<u8>, k: int)
    requires
        0 <= k <= s.len(),
        spec_all_digits(s),
    ensures
        spec_digits_val(s.take(k)) <= spec_digits_val(s),
    decreases s.len(),
{
    if k < s.len() {
        assert(spec_all_digits(s.drop_last()));
        assert(s.take(k) =~= s.drop_last().take(k));
        lemma_digits_val_monotone(s.drop_last(), k);
        lemma_digits_val_nonneg(s.drop_last());
        assert(spec_digits_val(s.drop_last()) <= spec_digits_val(s.drop_last()) * 10 + (s.last()
            - 48)) by (nonlinear_arith)
            requires
                spec_digits_val(s.drop_last()) >= 0,
                48 <= s.last() <= 57,
        ;
    } else {
        assert(s.take(k) =~= s);
    }
}

/// What a decimal token parses to: its value, if it is a non-empty string
/// of digits whose value fits in 32 bits; otherwise nothing.
pub open spec fn spec_parse_u32(s: Seq<u8>) -> Option<u32> {
    if s.len() > 0 && spec_all_digits(s) && spec_digits_val(s) <= u32::MAX {
        Some(spec_digits_val(s) as u32)
    } else {
        None
    }
}

/// Parses a non-empty all-digit token into a 32-bit number.
pub fn parse_u32(s: &[u8]) -> (r: Option<u32>)
    ensures
        r == spec_parse_u32(s@),
{
    if s.len() == 0 {
        return None;
    }
    let mut acc: u64 = 0;
    let mut i: usize = 0;
    while i < s.len()
        invariant
            0 <= i <= s@.len(),
            forall|j: int| 0 <= j < i ==> 48 <= #[trigger] s@[j] <= 57,
            acc == spec_digits_val(s@.take(i as int)),
            acc <= u32::MAX,
        decreases s@.len() - i,
    {
        let b = s[i];
        if b < 48 || b > 57 {
            assert(!(48 <= s@[i as int] <= 57));
            return None;
        }
        acc = acc * 10 + (b - 48) as u64;
        proof {
            assert(s@.take(i + 1).drop_last() =~= s@.take(i as int));
            assert(s@.take(i + 1).last() == b);
        }
        if acc > u32::MAX as u64 {
            proof {
                if spec_all_digits(s@) {
                    lemma_digits_val_monotone(s@, i + 1);
                }
            }
            return None;
        }
        i += 1;
    }
    proof {
        assert(s@.take(s@.len() as int) =~= s@);
    }
    Some(acc as u32)
}

/// The trimmed line starts with the `+OK` status marker.
pub open spec fn spec_starts_plus_ok(t: Seq<u8>) -> bool {
    t.len() >= 3 && t[0] == 43 && t[1] == 79 && t[2] == 75
}

/// What one trimmed UIDL line contributes: a `(sequence, unique-id)` pair
/// if the line has at least two whitespace-separated tokens and the first
/// parses as a number; nothing otherwise.
pub open spec fn spec_line_entry(t: Seq<u8>) -> Option<(u32, Seq<u8>)> {
    let k = spec_span_token(t);
    if k == t.len() {
        None
    } else {
        let m = k + spec_span_space(t.skip(k));
        if m == t.len() {
            None
        } else {
            let e = m + spec_span_token(t.skip(m));
            match spec_parse_u32(t.take(k)) {
                Some(n) => Some((n, t.subrange(m, e))),
                None => None,
            }
        }
    }
}

/// Extracts the `(sequence, unique-id)` pair of one trimmed UIDL line.
pub fn line_entry(t: &[u8]) -> (r: Option<(u32, Vec<u8>)>)
    ensures
        r is Some <==> spec_line_entry(t@) is Some,
        r matches Some(p) ==> spec_line_entry(t@) matches Some(q) && p.0 == q.0 && p.1@ == q.1,
{
    let k = find_token_end(t, 0);
    proof {
        assert(t@.skip(0) =~= t@);
    }
    if k == t.len() {
        return None;
    }
    let m = find_space_end(t, k);
    if m == t.len() {
        return None;
    }
    let e = find_token_end(t, m);
    let tok1 = copy_range(t, 0, k);
    proof {
        assert(tok1@ =~= t@.take(k as int));
    }
    match parse_u32(tok1.as_slice()) {
        Some(n) => {
            let tok2 = copy_range(t, m, e);
            Some((n, tok2))
        },
        None => None,
    }
}

/// The `(sequence, unique-id)` pairs that a sequence of response lines
/// yields: blank lines and `+OK` status lines are skipped, a line of just
/// `.` ends the listing, and a line without two parseable tokens is
/// ignored.
pub open spec fn spec_uidl_lines(lines: Seq<Seq<u8>>) -> Seq<(u32, Seq<u8>)>
    decreases lines.len(),
{
    if lines.len() == 0 {
        Seq::empty()
    } else {
        let t = spec_trim(lines[0]);
        if t.len() == 0 || spec_starts_plus_ok(t) {
            spec_uidl_lines(lines.skip(1))
        } else if t == seq![46u8] {
            Seq::empty()
        } else {
            match spec_line_entry(t) {
                Some(p) => seq![p] + spec_uidl_lines(lines.skip(1)),
                None => spec_uidl_lines(lines.skip(1)),
            }
        }
    }
}

/// The pairs that a raw UIDL response yields.
pub open spec fn spec_uidl(s: Seq<u8>) -> Seq<(u32, Seq<u8>)> {
    spec_uidl_lines(spec_lines(s))
}

/// View of a vector of pairs as a sequence of pairs of plain values.
pub open spec fn spec_pairs_view(v: Seq<(u32, Vec<u8>)>) -> Seq<(u32, Seq<u8>)> {
    v.map_values(|p: (u32, Vec<u8>)| (p.0, p.1@))
}

/// Parses a raw UIDL response into its `(sequence, unique-id)` pairs.
pub fn parse_uidl_bytes(s: &[u8]) -> (r: Vec<(u32, Vec<u8>)>)
    ensures
        spec_pairs_view(r@) == spec_uidl(s@),
{
    let lines = split_lines(s);
    let ghost lv = spec_lines_view(lines@);
    let mut out: Vec<(u32, Vec<u8>)> = Vec::new();
    let mut i: usize = 0;
    proof {
        assert(lv.skip(0) =~= lv);
        assert(spec_pairs_view(Seq::<(u32, Vec<u8>)>::empty()) + spec_uidl_lines(lv)
            =~= spec_uidl_lines(lv));
    }
    let mut done = false;
    while !done && i < lines.len()
        invariant
            0 <= i <= lines@.len(),
            lv == spec_lines_view(lines@),
            spec_uidl_lines(lv) == spec_pairs_view(out@) + spec_uidl_lines(lv.skip(i as int)),
            done ==> spec_uidl_lines(lv.skip(i as int)) == Seq::<(u32, Seq<u8>)>::empty(),
        decreases lines@.len() - i, (if done { 0int } else { 1int }),
    {
        let ghost prev = spec_pairs_view(out@);
        let t = trim_bytes(lines[i].as_slice());
        proof {
            assert(lv.skip(i as int)[0] == lv[i as int]);
            assert(lv.skip(i as int).skip(1) =~= lv.skip(i + 1));
            assert(lines@[i as int]@ == lv[i as int]);
        }
        if t.len() == 0 || (t.len() >= 3 && t[0] == 43 && t[1] == 79 && t[2] == 75) {
            i += 1;
            continue ;
        }
        if t.len() == 1 && t[0] == 46 {
            proof {
                assert(t@ =~= seq![46u8]);
                assert(spec_uidl_lines(lv.skip(i as int)) =~= Seq::<(u32, Seq<u8>)>::empty());
            }
            done = true;
            continue ;
        }
        proof {
            assert(t@ != seq![46u8]) by {
                if t@ =~= seq![46u8] {
                    assert(t@.len() == 1 && t@[0] == 46);
                }
            }
        }
        match line_entry(t.as_slice()) {
            Some(p) => {
                out.push(p);
                proof {
                    let q = spec_line_entry(t@)->Some_0;
                    assert(spec_pairs_view(out@) =~= prev + seq![q]);
                    assert(spec_uidl_lines(lv.skip(i as int)) == seq![q] + spec_uidl_lines(
                        lv.skip(i + 1),
                    ));
                }
            },
            None => {
            },
        }
        i += 1;
    }
    proof {
        if !done {
            assert(lv.skip(i as int) =~= Seq::<Seq<u8>>::empty());
        }
        assert(spec_pairs_view(out@) =~= spec_uidl_lines(lv));
    }
    out
}

/// Parses a UIDL response into `(sequence, unique-id)` pairs, rendering
/// each unique id as a string.
pub fn parse_uidl_response(response: &str) -> (r: Vec<(u32, String)>)
    ensures
        r@.len() == spec_uidl(response.spec_bytes()).len(),
        forall|i: int| 0 <= i < r@.len() ==> #[trigger] r@[i].0 == spec_uidl(
            response.spec_bytes(),
        )[i].0 && r@[i].1@ == utf8_lossy_of(spec_uidl(response.spec_bytes())[i].1),
{
    let bytes = response.as_bytes();
    let pairs = parse_uidl_bytes(bytes);
    let ghost su = spec_uidl(response.spec_bytes());
    let mut out: Vec<(u32, String)> = Vec::new();
    let mut i: usize = 0;
    while i < pairs.len()
        invariant
            0 <= i <= pairs@.len(),
            spec_pairs_view(pairs@) == su,
            out@.len() == i,
            forall|j: int| 0 <= j < i ==> #[trigger] out@[j].0 == su[j].0 && out@[j].1@
                == utf8_lossy_of(su[j].1),
        decreases pairs@.len() - i,
    {
        let seq_no = pairs[i].0;
        let uid = utf8_lossy(pairs[i].1.as_slice());
        proof {
            assert(spec_pairs_view(pairs@)[i as int] == (pairs@[i as int].0, pairs@[i as int].1@));
        }
        out.push((seq_no, uid));
        i += 1;
    }
    out
}

/// Stable insertion of `x` into a descending list: `x` goes in front of
/// the first entry with a strictly smaller sequence number, so equal keys
/// keep their arrival order.
pub open spec fn spec_insert_desc(s: Seq<(u32, String)>, x: (u32, String)) -> Seq<(u32, String)>
    decreases s.len(),
{
    if s.len() == 0 {
        seq![x]
    } else if s[0].0 < x.0 {
        seq![x] + s
    } else {
        seq![s[0]] + spec_insert_desc(s.skip(1), x)
    }
}

/// Stable sort of `(sequence, unique-id)` pairs, newest (largest sequence)
/// first.
pub open spec fn spec_sort_desc(l: Seq<(u32, String)>) -> Seq<(u32, String)>
    decreases l.len(),
{
    if l.len() == 0 {
        Seq::empty()
    } else {
        spec_insert_desc(spec_sort_desc(l.drop_last()), l.last())
    }
}

/// The sequence numbers never increase along `s`.
pub open spec fn spec_sorted_desc(s: Seq<(u32, String)>) -> bool {
    forall|i: int, j: int| 0 <= i < j < s.len() ==> s[i].0 >= s[j].0
}

/// Position where `spec_insert_desc` places `x`.
pub open spec fn spec_insert_pos(s: Seq<(u32, String)>, x: (u32, String)) -> int
    decreases s.len(),
{
    if s.len() == 0 {
        0
    } else if s[0].0 < x.0 {
        0
    } else {
        1 + spec_insert_pos(s.skip(1), x)
    }
}

/// `spec_insert_desc` splices `x` in at `spec_insert_pos`.
pub proof fn lemma_insert_desc_char(s: Seq<(u32, String)>, x: (u32, String))
    ensures
        0 <= spec_insert_pos(s, x) <= s.len(),
        forall|i: int| 0 <= i < spec_insert_pos(s, x) ==> s[i].0 >= x.0,
        spec_insert_pos(s, x) < s.len() ==> s[spec_insert_pos(s, x)].0 < x.0,
        spec_insert_desc(s, x) == s.insert(spec_insert_pos(s, x), x),
    decreases s.len(),
{
    if s.len() == 0 {
        assert(spec_insert_desc(s, x) =~= s.insert(0, x));
    } else if s[0].0 < x.0 {
        assert(spec_insert_desc(s, x) =~= s.insert(0, x));
    } else {
        lemma_insert_desc_char(s.skip(1), x);
        let p = spec_insert_pos(s, x);
        assert forall|i: int| 0 <= i < p implies s[i].0 >= x.0 by {
            if i > 0 {
                assert(s.skip(1)[i - 1].0 >= x.0);
            }
        }
        if p < s.len() {
            assert(s[p].0 == s.skip(1)[p - 1].0);
        }
        assert(spec_insert_desc(s, x) =~= s.insert(p, x));
    }
}

/// Inserting into a descending list keeps it descending.
pub proof fn lemma_insert_desc_sorted(s: Seq<(u32, String)>, x: (u32, String))
    requires
        spec_sorted_desc(s),
    ensures
        spec_sorted_desc(spec_insert_desc(s, x)),
        spec_insert_desc(s, x).len() == s.len() + 1,
{
    lemma_insert_desc_char(s, x);
    let p = spec_insert_pos(s, x);
    let r = spec_insert_desc(s, x);
    assert forall|i: int, j: int| 0 <= i < j < r.len() implies r[i].0 >= r[j].0 by {
        assert(r == s.insert(p, x));
        if i < p && j < p {
        } else if i < p && j == p {
            assert(r[i] == s[i] && r[j] == x);
        } else if i == p && j > p {
            assert(r[i] == x && r[j] == s[j - 1]);
            assert(s[j - 1].0 < x.0 || (j - 1 > p - 1 && p < s.len() && s[p].0 < x.0 && s[p].0
                >= s[j - 1].0) || j - 1 == p);
        } else if i < p && j > p {
            assert(r[i] == s[i] && r[j] == s[j - 1]);
        } else {
            assert(r[i] == s[i - 1] && r[j] == s[j - 1]);
        }
    }
}

/// The stable descending sort is descending and keeps the length.
pub proof fn lemma_sort_desc_sorted(l: Seq<(u32, String)>)
    ensures
        spec_sorted_desc(spec_sort_desc(l)),
        spec_sort_desc(l).len() == l.len(),
    decreases l.len(),
{
    if l.len() > 0 {
        lemma_sort_desc_sorted(l.drop_last());
        lemma_insert_desc_sorted(spec_sort_desc(l.drop_last()), l.last());
    }
}

/// Sorts `(sequence, unique-id)` pairs newest-first, stably.
pub fn sort_pairs_desc(v: Vec<(u32, String)>) -> (r: Vec<(u32, String)>)
    ensures
        r@ == spec_sort_desc(v@),
        spec_sorted_desc(r@),
{
    let mut r: Vec<(u32, String)> = Vec::new();
    let mut i: usize = 0;
    proof {
        assert(v@.take(0) =~= Seq::<(u32, String)>::empty());
    }
    while i < v.len()
        invariant
            0 <= i <= v@.len(),
            r@ == spec_sort_desc(v@.take(i as int)),
        decreases v@.len() - i,
    {
        let ghost prev = r@;
        let xi = &v[i];
        let x = (xi.0, xi.1.clone());
        assert(x == v@[i as int]);
        let mut p: usize = 0;
        while p < r.len() && r[p].0 >= x.0
            invariant
                0 <= p <= r@.len(),
                forall|k: int| 0 <= k < p ==> r@[k].0 >= x.0,
            decreases r@.len() - p,
        {
            p += 1;
        }
        proof {
            lemma_insert_desc_char(prev, x);
            let q = spec_insert_pos(prev, x);
            if p < q {
                assert(prev[p as int].0 >= x.0);
                assert(false);
            }
            if p > q {
                assert(q < prev.len() && prev[q].0 < x.0);
                assert(false);
            }
        }
        r.insert(p, x);
        proof {
            assert(v@.take(i + 1).drop_last() =~= v@.take(i as int));
            assert(v@.take(i + 1).last() == v@[i as int]);
        }
        i += 1;
    }
    proof {
        assert(v@.take(v@.len() as int) =~= v@);
        lemma_sort_desc_sorted(v@);
    }
    r
}

/// Selects the `skip`/`max` window of a listing.
pub fn select_page(v: Vec<(u32, String)>, skip: usize, max: usize) -> (r: Vec<(u32, String)>)
    ensures
        r@ == spec_page(v@, skip as nat, max as nat),
{
    let mut r: Vec<(u32, String)> = Vec::new();
    if skip >= v.len() {
        proof {
            assert(r@ =~= spec_page(v@, skip as nat, max as nat));
        }
        return r;
    }
    let end = if max <= v.len() - skip {
        skip + max
    } else {
        v.len()
    };
    let mut i: usize = skip;
    while i < end
        invariant
            skip <= i <= end <= v@.len(),
            r@ == v@.subrange(skip as int, i as int),
        decreases end - i,
    {
        let xi = &v[i];
        let x = (xi.0, xi.1.clone());
        assert(x == v@[i as int]);
        r.push(x);
        assert(r@ =~= v@.subrange(skip as int, i + 1));
        i += 1;
    }
    proof {
        assert(r@ =~= spec_page(v@, skip as nat, max as nat));
    }
    r
}

/// Sorts the UIDL listing newest-first and selects the requested page:
/// the POP3 counterpart of the IMAP sequence-range computation. Skipping
/// past the end yields an empty page, not an error, and the page is
/// ordered newest-first.
pub fn pop3_page(pairs: Vec<(u32, String)>, skip: usize, max: usize) -> (r: Vec<(u32, String)>)
    ensures
        r@ == spec_page(spec_sort_desc(pairs@), skip as nat, max as nat),
        spec_sorted_desc(r@),
        skip >= pairs@.len() ==> r@.len() == 0,
        r@.len() <= max,
{
    let sorted = sort_pairs_desc(pairs);
    let page = select_page(sorted, skip, max);
    proof {
        lemma_sort_desc_sorted(pairs@);
    }
    page
}

/// `pat` occurs in `s` at offset `i`.
pub open spec fn spec_contains_at(s: Seq<u8>, pat: Seq<u8>, i: int) -> bool {
    0 <= i && i + pat.len() <= s.len() && s.subrange(i, i + pat.len()) == pat
}

/// `pat` occurs somewhere in `s`.
pub open spec fn spec_contains(s: Seq<u8>, pat: Seq<u8>) -> bool {
    exists|i: int| spec_contains_at(s, pat, i)
}

/// Naive substring search.
pub fn contains_sub(s: &[u8], pat: &[u8]) -> (r: bool)
    requires
        pat@.len() >= 1,
    ensures
        r == spec_contains(s@, pat@),
{
    if pat.len() > s.len() {
        proof {
            if spec_contains(s@, pat@) {
                let i = choose|i: int| spec_contains_at(s@, pat@, i);
            }
        }
        return false;
    }
    let mut i: usize = 0;
    while i <= s.len() - pat.len()
        invariant
            pat@.len() >= 1,
            pat@.len() <= s@.len(),
            0 <= i <= s@.len() - pat@.len() + 1,
            forall|k: int| 0 <= k < i ==> !spec_contains_at(s@, pat@, k),
        decreases s@.len() - i,
    {
        let mut j: usize = 0;
        let mut ok = true;
        while j < pat.len()
            invariant
                0 <= j <= pat@.len(),
                i + pat@.len() <= s@.len() <= usize::MAX,
                ok <==> (forall|k: int| 0 <= k < j ==> s@[i + k] == pat@[k]),
            decreases pat@.len() - j,
        {
            if s[i + j] != pat[j] {
                ok = false;
                proof {
                    assert(s@[i + j] != pat@[j as int]);
                }
                j = pat.len();
            } else {
                j += 1;
            }
        }
        if ok {
            proof {
                assert(s@.subrange(i as int, i + pat@.len()) =~= pat@);
                assert(spec_contains_at(s@, pat@, i as int));
            }
            return true;
        }
        proof {
            if spec_contains_at(s@, pat@, i as int) {
                let k = choose|k: int|
                    0 <= k < pat@.len() && s@[i + k] != pat@[k];
                assert(s@.subrange(i as int, i + pat@.len())[k] == pat@[k]);
            }
        }
        i += 1;
    }
    proof {
        if spec_contains(s@, pat@) {
            let k = choose|k: int| spec_contains_at(s@, pat@, k);
        }
    }
    false
}

/// A buffered RETR response is complete once it holds the POP3 multi-line
/// terminator: `CRLF . CRLF`, or a bare `LF . LF`.
pub open spec fn spec_retr_done(s: Seq<u8>) -> bool {
    spec_contains(s, seq![13u8, 10u8, 46u8, 13u8, 10u8]) || spec_contains(
        s,
        seq![10u8, 46u8, 10u8],
    )
}

/// Decides whether a growing RETR buffer already holds the terminator.
pub fn retr_complete(buf: &[u8]) -> (r: bool)
    ensures
        r == spec_retr_done(buf@),
{
    let mut crlf_pat: Vec<u8> = Vec::new();
    crlf_pat.push(13);
    crlf_pat.push(10);
    crlf_pat.push(46);
    crlf_pat.push(13);
    crlf_pat.push(10);
    assert(crlf_pat@ =~= seq![13u8, 10u8, 46u8, 13u8, 10u8]);
    let mut lf_pat: Vec<u8> = Vec::new();
    lf_pat.push(10);
    lf_pat.push(46);
    lf_pat.push(10);
    assert(lf_pat@ =~= seq![10u8, 46u8, 10u8]);
    contains_sub(buf, crlf_pat.as_slice()) || contains_sub(buf, lf_pat.as_slice())
}

/// Index of the first `CRLF` in `s`, or `s.len()` if there is none.
pub open spec fn spec_find_crlf(s: Seq<u8>) -> int
    decreases s.len(),
{
    if s.len() < 2 {
        s.len() as int
    } else if s[0] == 13 && s[1] == 10 {
        0
    } else {
        1 + spec_find_crlf(s.skip(1))
    }
}

/// `spec_find_crlf` finds the first `CRLF`.
pub proof fn lemma_find_crlf(s: Seq<u8>)
    ensures
        0 <= spec_find_crlf(s) <= s.len(),
        spec_find_crlf(s) + 2 <= s.len() ==> s[spec_find_crlf(s)] == 13 && s[spec_find_crlf(s) + 1]
            == 10,
        forall|i: int| 0 <= i < spec_find_crlf(s) && i + 2 <= s.len() ==> !(#[trigger] s[i] == 13
            && s[i + 1] == 10),
        spec_find_crlf(s) + 2 > s.len() ==> spec_find_crlf(s) == s.len(),
    decreases s.len(),
{
    if s.len() >= 2 && !(s[0] == 13 && s[1] == 10) {
        lemma_find_crlf(s.skip(1));
        assert forall|i: int|
            0 <= i < spec_find_crlf(s) && i + 2 <= s.len() implies !(#[trigger] s[i] == 13 && s[i
            + 1] == 10) by {
            if i > 0 {
                assert(s.skip(1)[i - 1] == s[i] && s.skip(1)[i] == s[i + 1]);
            }
        }
    }
}

/// A RETR response with its leading status line removed: everything after
/// the first `CRLF`, or the whole buffer when there is none.
pub open spec fn spec_strip_status(s: Seq<u8>) -> Seq<u8> {
    let i = spec_find_crlf(s);
    if i + 2 <= s.len() {
        s.skip(i + 2)
    } else {
        s
    }
}

/// Strips the leading `+OK ...` status line off a RETR response, leaving
/// the raw message bytes.
pub fn strip_status_line(resp: &[u8]) -> (r: Vec<u8>)
    ensures
        r@ == spec_strip_status(resp@),
{
    if resp.len() < 2 {
        proof {
            assert(resp@.subrange(0, resp@.len() as int) =~= resp@);
        }
        return copy_range(resp, 0, resp.len());
    }
    let mut k: usize = 0;
    while k < resp.len() - 1 && !(resp[k] == 13 && resp[k + 1] == 10)
        invariant
            resp@.len() >= 2,
            0 <= k <= resp@.len() - 1,
            forall|i: int| 0 <= i < k ==> !(#[trigger] resp@[i] == 13 && resp@[i + 1] == 10),
        decreases resp@.len() - k,
    {
        k += 1;
    }
    proof {
        lemma_find_crlf(resp@);
        let n = spec_find_crlf(resp@);
        if k < resp@.len() - 1 {
            if n < k {
                assert(!(resp@[n] == 13 && resp@[n + 1] == 10));
                assert(false);
            }
            if n > k {
                assert(!(resp@[k as int] == 13 && resp@[k + 1] == 10));
                assert(false);
            }
        } else {
            if n + 2 <= resp@.len() {
                assert(n <= resp@.len() - 2);
                assert(!(resp@[n] == 13 && resp@[n + 1] == 10));
                assert(false);
            }
        }
    }
    if k < resp.len() - 1 {
        let r = copy_range(resp, k + 2, resp.len());
        proof {
            assert(r@ =~= resp@.skip(k + 2));
        }
        r
    } else {
        proof {
            assert(resp@.subrange(0, resp@.len() as int) =~= resp@);
        }
        copy_range(resp, 0, resp.len())
    }
}

/// A line that is not blank, not a status line and not the sentinel, but
/// yields no entry (fewer than two whitespace-separated tokens, or a
/// first token that is not a number) is ignored: it contributes nothing
/// to the UIDL listing.
pub proof fn lemma_uidl_short_line_ignored(l: Seq<u8>, lines: Seq<Seq<u8>>)
    requires
        spec_trim(l).len() > 0,
        !spec_starts_plus_ok(spec_trim(l)),
        spec_trim(l) != seq![46u8],
        spec_line_entry(spec_trim(l)) is None,
    ensures
        spec_uidl_lines(seq![l] + lines) == spec_uidl_lines(lines),
{
    let all = seq![l] + lines;
    assert(all[0] == l);
    assert(all.skip(1) =~= lines);
}

/// The sentinel line of a bare `.` ends the listing: lines after it are
/// never looked at.
pub proof fn lemma_uidl_sentinel_stops(l: Seq<u8>, lines: Seq<Seq<u8>>)
    requires
        spec_trim(l) == seq![46u8],
    ensures
        spec_uidl_lines(seq![l] + lines) == Seq::<(u32, Seq<u8>)>::empty(),
{
    let all = seq![l] + lines;
    assert(all[0] == l);
}

/// Wherever the sentinel stands, everything after it is dead: the
/// listing parses the same with or without the lines behind the `.`.
pub proof fn lemma_uidl_sentinel_stops_anywhere(pre: Seq<Seq<u8>>, l: Seq<u8>, post: Seq<Seq<u8>>)
    requires
        spec_trim(l) == seq![46u8],
    ensures
        spec_uidl_lines(pre + seq![l] + post) == spec_uidl_lines(pre + seq![l]),
    decreases pre.len(),
{
    let with_post = pre + seq![l] + post;
    let without = pre + seq![l];
    if pre.len() == 0 {
        assert(with_post[0] == l);
        assert(without[0] == l);
    } else {
        assert(with_post[0] == pre[0]);
        assert(without[0] == pre[0]);
        lemma_uidl_sentinel_stops_anywhere(pre.skip(1), l, post);
        assert(with_post.skip(1) =~= pre.skip(1) + seq![l] + post);
        assert(without.skip(1) =~= pre.skip(1) + seq![l]);
        let t = spec_trim(pre[0]);
        if t.len() == 0 || spec_starts_plus_ok(t) {
        } else if t == seq![46u8] {
        } else {
            match spec_line_entry(t) {
                Some(_) => {},
                None => {},
            }
        }
    }
}

/// A POP3 status line (or buffered response) signals success: it carries
/// `+OK` somewhere in it.
pub fn pop3_response_ok(resp: &[u8]) -> (r: bool)
    ensures
        r == spec_contains(resp@, seq![43u8, 79u8, 75u8]),
{
    let mut pat: Vec<u8> = Vec::new();
    pat.push(43);
    pat.push(79);
    pat.push(75);
    assert(pat@ =~= seq![43u8, 79u8, 75u8]);
    contains_sub(resp, pat.as_slice())
}

/// Where a POP3 session stands.
#[derive(Clone, Copy, Debug, PartialEq, Eq, Structural)]
pub enum Pop3State {
    Disconnected,
    Connected,
    Greeted,
    UserSent,
    Authenticated,
    Listed,
    Retrieving,
    Quit,
    Failed,
}

/// What the driving loop reports back after performing an action.
#[derive(Clone, Copy, Debug, PartialEq, Eq, Structural)]
pub enum Pop3Event {
    TcpOpened,
    TcpFailed,
    GreetingRead,
    UserAccepted,
    UserRejected,
    PassAccepted,
    PassRejected,
    UidlListed,
    RetrDone,
    RetrFailed,
    PageDone,
}

/// What the driving loop is asked to do next.
#[derive(Clone, Copy, Debug, PartialEq, Eq, Structural)]
pub enum Pop3Action {
    OpenTcp,
    ReadGreeting,
    SendUser,
    SendPass,
    SendUidl,
    RetrievePage,
    SendQuit,
    Fail(SyncError),
}

/// The transition relation of the POP3 session: USER then PASS must each
/// be acknowledged with `+OK` or the session fails with an authentication
/// error; after UIDL the selected page is retrieved message by message,
/// and QUIT ends the session whatever happened to the page.
pub open spec fn spec_pop3_step(state: Pop3State, event: Pop3Event) -> (Pop3State, Pop3Action) {
    match (state, event) {
        (Pop3State::Disconnected, Pop3Event::TcpOpened) => (
            Pop3State::Connected,
            Pop3Action::ReadGreeting,
        ),
        (Pop3State::Disconnected, Pop3Event::TcpFailed) => (
            Pop3State::Failed,
            Pop3Action::Fail(SyncError::Connect),
        ),
        (Pop3State::Connected, Pop3Event::GreetingRead) => (
            Pop3State::Greeted,
            Pop3Action::SendUser,
        ),
        (Pop3State::Greeted, Pop3Event::UserAccepted) => (
            Pop3State::UserSent,
            Pop3Action::SendPass,
        ),
        (Pop3State::Greeted, Pop3Event::UserRejected) => (
            Pop3State::Failed,
            Pop3Action::Fail(SyncError::Auth),
        ),
        (Pop3State::UserSent, Pop3Event::PassAccepted) => (
            Pop3State::Authenticated,
            Pop3Action::SendUidl,
        ),
        (Pop3State::UserSent, Pop3Event::PassRejected) => (
            Pop3State::Failed,
            Pop3Action::Fail(SyncError::Auth),
        ),
        (Pop3State::Authenticated, Pop3Event::UidlListed) => (
            Pop3State::Listed,
            Pop3Action::RetrievePage,
        ),
        (Pop3State::Listed, Pop3Event::RetrDone) => (Pop3State::Retrieving, Pop3Action::SendQuit),
        (Pop3State::Listed, Pop3Event::RetrFailed) => (
            Pop3State::Failed,
            Pop3Action::Fail(SyncError::Fetch),
        ),
        (Pop3State::Retrieving, Pop3Event::PageDone) => (Pop3State::Quit, Pop3Action::SendQuit),
        _ => (Pop3State::Failed, Pop3Action::Fail(SyncError::Fetch)),
    }
}

/// Advances the POP3 session by one event.
pub fn pop3_step(state: Pop3State, event: Pop3Event) -> (r: (Pop3State, Pop3Action))
    ensures
        r == spec_pop3_step(state, event),
{
    match (state, event) {
        (Pop3State::Disconnected, Pop3Event::TcpOpened) => (
            Pop3State::Connected,
            Pop3Action::ReadGreeting,
        ),
        (Pop3State::Disconnected, Pop3Event::TcpFailed) => (
            Pop3State::Failed,
            Pop3Action::Fail(SyncError::Connect),
        ),
        (Pop3State::Connected, Pop3Event::GreetingRead) => (
            Pop3State::Greeted,
            Pop3Action::SendUser,
        ),
        (Pop3State::Greeted, Pop3Event::UserAccepted) => (
            Pop3State::UserSent,
            Pop3Action::SendPass,
        ),
        (Pop3State::Greeted, Pop3Event::UserRejected) => (
            Pop3State::Failed,
            Pop3Action::Fail(SyncError::Auth),
        ),
        (Pop3State::UserSent, Pop3Event::PassAccepted) => (
            Pop3State::Authenticated,
            Pop3Action::SendUidl,
        ),
        (Pop3State::UserSent, Pop3Event::PassRejected) => (
            Pop3State::Failed,
            Pop3Action::Fail(SyncError::Auth),
        ),
        (Pop3State::Authenticated, Pop3Event::UidlListed) => (
            Pop3State::Listed,
            Pop3Action::RetrievePage,
        ),
        (Pop3State::Listed, Pop3Event::RetrDone) => (Pop3State::Retrieving, Pop3Action::SendQuit),
        (Pop3State::Listed, Pop3Event::RetrFailed) => (
            Pop3State::Failed,
            Pop3Action::Fail(SyncError::Fetch),
        ),
        (Pop3State::Retrieving, Pop3Event::PageDone) => (Pop3State::Quit, Pop3Action::SendQuit),
        _ => (Pop3State::Failed, Pop3Action::Fail(SyncError::Fetch)),
    }
}

} // verus!
