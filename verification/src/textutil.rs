//! Byte- and text-level helpers shared by the protocol and decoder layers:
//! ASCII classification, decimal rendering, and the trusted bridge from
//! raw bytes to `String`.

use vstd::prelude::*;
use vstd::string::*;

verus! {

/// ASCII view of a byte sequence, one char per byte.
pub open spec fn spec_ascii_chars(b: Seq<u8>) -> Seq<char> {
    b.map_values(|x: u8| x as char)
}

/// What `String::from_utf8_lossy` returns for a byte sequence.
pub uninterp spec fn utf8_lossy_of(b: Seq<u8>) -> Seq<char>;

/// Relies on `String::from_utf8_lossy`: valid UTF-8 is decoded as is (so
/// pure-ASCII input maps byte for byte), invalid sequences become
/// replacement characters, and the result depends on the bytes alone.
#[verifier::external_body]
pub(crate) fn utf8_lossy(b: &[u8]) -> (r: String)
    ensures
        r@ == utf8_lossy_of(b@),
        (forall|i: int| 0 <= i < b@.len() ==> b@[i] < 128) ==> r@ == spec_ascii_chars(b@),
        b@.len() == 0 ==> r@.len() == 0,
{
    String::from_utf8_lossy(b).into_owned()
}

/// Converts a pure-ASCII byte sequence to the string it spells.
pub fn ascii_string(b: &[u8]) -> (r: String)
    requires
        forall|i: int| 0 <= i < b@.len() ==> b@[i] < 128,
    ensures
        r@ == spec_ascii_chars(b@),
{
    utf8_lossy(b)
}

/// What `char::is_alphanumeric` returns.
pub uninterp spec fn char_alphanumeric_of(c: char) -> bool;

/// ASCII letters and digits.
pub open spec fn spec_ascii_alnum(c: char) -> bool {
    (48 <= c as u32 <= 57) || (65 <= c as u32 <= 90) || (97 <= c as u32 <= 122)
}

/// Relies on `char::is_alphanumeric`: true on every ASCII letter or digit,
/// false on every other ASCII character, and a function of the char alone.
#[verifier::external_body]
pub(crate) fn char_alphanumeric(c: char) -> (r: bool)
    ensures
        r == char_alphanumeric_of(c),
        spec_ascii_alnum(c) ==> r,
        ((c as u32) < 128 && !spec_ascii_alnum(c)) ==> !r,
{
    c.is_alphanumeric()
}

/// What `char::is_whitespace` returns.
pub uninterp spec fn char_whitespace_of(c: char) -> bool;

/// ASCII whitespace: space, tab, line feed, vertical tab, form feed,
/// carriage return.
pub open spec fn spec_ascii_space(c: char) -> bool {
    c as u32 == 32 || 9 <= c as u32 <= 13
}

/// Relies on `char::is_whitespace`: true on every ASCII whitespace
/// character, false on every other ASCII character, and a function of the
/// char alone.
#[verifier::external_body]
pub(crate) fn char_whitespace(c: char) -> (r: bool)
    ensures
        r == char_whitespace_of(c),
        spec_ascii_space(c) ==> r,
        ((c as u32) < 128 && !spec_ascii_space(c)) ==> !r,
{
    c.is_whitespace()
}

/// Lower-cases one ASCII byte; other bytes pass through.
pub open spec fn spec_lower_byte(b: u8) -> u8 {
    if 65 <= b <= 90 {
        (b + 32) as u8
    } else {
        b
    }
}

/// ASCII lower-casing of one byte.
pub fn lower_byte(b: u8) -> (r: u8)
    ensures
        r == spec_lower_byte(b),
{
    if 65 <= b && b <= 90 {
        b + 32
    } else {
        b
    }
}

/// Case-insensitive ASCII equality of two byte sequences.
pub open spec fn spec_eq_ignore_case(a: Seq<u8>, b: Seq<u8>) -> bool {
    a.map_values(|x: u8| spec_lower_byte(x)) == b.map_values(|x: u8| spec_lower_byte(x))
}

/// Compares two byte slices ignoring ASCII case.
pub fn eq_ignore_case(a: &[u8], b: &[u8]) -> (r: bool)
    ensures
        r == spec_eq_ignore_case(a@, b@),
{
    if a.len() != b.len() {
        assert(a@.map_values(|x: u8| spec_lower_byte(x)).len() == a@.len());
        assert(b@.map_values(|x: u8| spec_lower_byte(x)).len() == b@.len());
        return false;
    }
    let mut i: usize = 0;
    while i < a.len()
        invariant
            0 <= i <= a@.len(),
            a@.len() == b@.len(),
            forall|j: int| 0 <= j < i ==> spec_lower_byte(a@[j]) == spec_lower_byte(b@[j]),
        decreases a@.len() - i,
    {
        if lower_byte(a[i]) != lower_byte(b[i]) {
            assert(a@.map_values(|x: u8| spec_lower_byte(x))[i as int]
                != b@.map_values(|x: u8| spec_lower_byte(x))[i as int]);
            return false;
        }
        i += 1;
    }
    assert(a@.map_values(|x: u8| spec_lower_byte(x)) =~= b@.map_values(|x: u8| spec_lower_byte(x)));
    true
}

/// ASCII whitespace as a byte: space, tab, line feed, vertical tab, form
/// feed, carriage return.
pub open spec fn spec_space_byte(b: u8) -> bool {
    b == 32 || 9 <= b <= 13
}

/// Tests a byte for ASCII whitespace.
pub fn space_byte(b: u8) -> (r: bool)
    ensures
        r == spec_space_byte(b),
{
    b == 32 || (9 <= b && b <= 13)
}

/// Copies `s[i..j]` into a fresh vector.
pub fn copy_range(s: &[u8], i: usize, j: usize) -> (r: Vec<u8>)
    requires
        i <= j <= s@.len(),
    ensures
        r@ == s@.subrange(i as int, j as int),
{
    let mut r: Vec<u8> = Vec::new();
    let mut k: usize = i;
    while k < j
        invariant
            i <= k <= j <= s@.len(),
            r@ == s@.subrange(i as int, k as int),
        decreases j - k,
    {
        r.push(s[k]);
        assert(r@ =~= s@.subrange(i as int, k + 1));
        k += 1;
    }
    r
}

/// Decimal digits of `n`, most significant first, as ASCII bytes.
pub open spec fn spec_decimal_bytes(n: nat) -> Seq<u8>
    decreases n,
{
    if n < 10 {
        seq![(48 + n) as u8]
    } else {
        spec_decimal_bytes(n / 10).push((48 + n % 10) as u8)
    }
}

/// Every decimal digit byte is an ASCII digit.
pub proof fn lemma_decimal_bytes_ascii(n: nat)
    ensures
        forall|i: int| 0 <= i < spec_decimal_bytes(n).len() ==> 48 <= #[trigger] spec_decimal_bytes(
            n,
        )[i] <= 57,
    decreases n,
{
    if n < 10 {
        assert(spec_decimal_bytes(n) =~= seq![(48 + n) as u8]);
    } else {
        lemma_decimal_bytes_ascii(n / 10);
        assert forall|i: int| 0 <= i < spec_decimal_bytes(n).len() implies 48
            <= #[trigger] spec_decimal_bytes(n)[i] <= 57 by {
            if i < spec_decimal_bytes(n / 10).len() {
                assert(spec_decimal_bytes(n)[i] == spec_decimal_bytes(n / 10)[i]);
            } else {
                assert(spec_decimal_bytes(n)[i] == (48 + n % 10) as u8);
            }
        }
    }
}

/// Appends the decimal digits of `n` to `out`.
pub fn push_decimal(n: u64, out: &mut Vec<u8>)
    ensures
        final(out)@ == old(out)@ + spec_decimal_bytes(n as nat),
    decreases n,
{
    if n >= 10 {
        push_decimal(n / 10, out);
    }
    out.push((n % 10) as u8 + 48);
    assert(final(out)@ =~= old(out)@ + spec_decimal_bytes(n as nat));
}

/// `k` ASCII zero bytes.
pub open spec fn spec_zeros(k: nat) -> Seq<u8> {
    Seq::new(k, |i: int| 48u8)
}

/// Decimal digits of `n`, left-padded with zeros to at least `width` bytes.
pub open spec fn spec_padded_decimal(n: nat, width: nat) -> Seq<u8> {
    let d = spec_decimal_bytes(n);
    if d.len() >= width {
        d
    } else {
        spec_zeros((width - d.len()) as nat) + d
    }
}

/// Appends the zero-padded decimal digits of `n` to `out`.
pub fn push_padded_decimal(n: u64, width: usize, out: &mut Vec<u8>)
    ensures
        final(out)@ == old(out)@ + spec_padded_decimal(n as nat, width as nat),
{
    let mut digits: Vec<u8> = Vec::new();
    push_decimal(n, &mut digits);
    let mut pad: usize = 0;
    let ghost n_pad: int = if width as int - digits@.len() >= 0 {
        width as int - digits@.len()
    } else {
        0
    };
    while digits.len() < width && pad < width - digits.len()
        invariant
            digits@ == spec_decimal_bytes(n as nat),
            0 <= pad <= n_pad,
            n_pad == (if width as int - digits@.len() >= 0 {
                width as int - digits@.len()
            } else {
                0
            }),
            out@ == old(out)@ + spec_zeros(pad as nat),
        decreases n_pad - pad,
    {
        out.push(48);
        assert(out@ =~= old(out)@ + spec_zeros((pad + 1) as nat));
        pad += 1;
    }
    let mut i: usize = 0;
    while i < digits.len()
        invariant
            digits@ == spec_decimal_bytes(n as nat),
            pad == n_pad,
            n_pad == (if width as int - digits@.len() >= 0 {
                width as int - digits@.len()
            } else {
                0
            }),
            0 <= i <= digits@.len(),
            out@ == old(out)@ + spec_zeros(pad as nat) + digits@.subrange(0, i as int),
        decreases digits@.len() - i,
    {
        out.push(digits[i]);
        assert(out@ =~= old(out)@ + spec_zeros(pad as nat) + digits@.subrange(0, i + 1));
        i += 1;
    }
    assert(digits@.subrange(0, digits@.len() as int) =~= digits@);
    assert(out@ =~= old(out)@ + spec_padded_decimal(n as nat, width as nat));
}

/// Every byte of a padded decimal is an ASCII digit.
pub proof fn lemma_padded_decimal_ascii(n: nat, width: nat)
    ensures
        forall|i: int| 0 <= i < spec_padded_decimal(n, width).len() ==> 48
            <= #[trigger] spec_padded_decimal(n, width)[i] <= 57,
{
    lemma_decimal_bytes_ascii(n);
    let d = spec_decimal_bytes(n);
    if d.len() < width {
        assert forall|i: int| 0 <= i < spec_padded_decimal(n, width).len() implies 48
            <= #[trigger] spec_padded_decimal(n, width)[i] <= 57 by {
            if i < width - d.len() {
                assert(spec_padded_decimal(n, width)[i] == 48u8);
            } else {
                assert(spec_padded_decimal(n, width)[i] == d[i - (width - d.len())]);
            }
        }
    }
}

/// The date and time that `secs` seconds after the Unix epoch renders as:
/// an approximate ISO 8601 UTC timestamp using 365-day years and 30-day
/// months, good enough for sync bookkeeping.
pub open spec fn spec_timestamp_bytes(secs: nat) -> Seq<u8> {
    let days = secs / 86400;
    let doy = days % 365;
    spec_padded_decimal(1970 + days / 365, 4) + seq![45u8] + spec_padded_decimal(doy / 30 + 1, 2)
        + seq![45u8] + spec_padded_decimal(doy % 30 + 1, 2) + seq![84u8] + spec_padded_decimal(
        (secs / 3600) % 24,
        2,
    ) + seq![58u8] + spec_padded_decimal((secs / 60) % 60, 2) + seq![58u8] + spec_padded_decimal(
        secs % 60,
        2,
    ) + seq![90u8]
}

/// Renders `secs` seconds after the Unix epoch as an approximate ISO 8601
/// UTC timestamp, e.g. for the `last_sync` bookmark. The clock reading is
/// handed in by the caller so the sync engine itself stays deterministic.
pub fn chrono_now(secs: u64) -> (r: String)
    ensures
        r@ == spec_ascii_chars(spec_timestamp_bytes(secs as nat)),
{
    let sec = secs % 60;
    let min = (secs / 60) % 60;
    let hour = (secs / 3600) % 24;
    let days = secs / 86400;
    assert(days / 365 <= days) by (nonlinear_arith);
    let year = 1970 + days / 365;
    let doy = days % 365;
    let month = doy / 30 + 1;
    let day = doy % 30 + 1;
    let mut b: Vec<u8> = Vec::new();
    push_padded_decimal(year, 4, &mut b);
    b.push(45);
    push_padded_decimal(month, 2, &mut b);
    b.push(45);
    push_padded_decimal(day, 2, &mut b);
    b.push(84);
    push_padded_decimal(hour, 2, &mut b);
    b.push(58);
    push_padded_decimal(min, 2, &mut b);
    b.push(58);
    push_padded_decimal(sec, 2, &mut b);
    b.push(90);
    assert(b@ =~= spec_timestamp_bytes(secs as nat));
    proof {
        lemma_padded_decimal_ascii(1970 + (secs as nat / 86400) / 365, 4);
        lemma_padded_decimal_ascii((secs as nat / 86400) % 365 / 30 + 1, 2);
        lemma_padded_decimal_ascii((secs as nat / 86400) % 365 % 30 + 1, 2);
        lemma_padded_decimal_ascii((secs as nat / 3600) % 24, 2);
        lemma_padded_decimal_ascii((secs as nat / 60) % 60, 2);
        lemma_padded_decimal_ascii(secs as nat % 60, 2);
    }
    ascii_string(b.as_slice())
}

/// Renders `n` in decimal.
pub fn u32_to_string(n: u32) -> (r: String)
    ensures
        r@ == spec_ascii_chars(spec_decimal_bytes(n as nat)),
{
    let mut bytes: Vec<u8> = Vec::new();
    push_decimal(n as u64, &mut bytes);
    proof {
        lemma_decimal_bytes_ascii(n as nat);
    }
    ascii_string(bytes.as_slice())
}

/// `s` with trailing ASCII whitespace removed.
pub open spec fn spec_trim_end(s: Seq<u8>) -> Seq<u8>
    decreases s.len(),
{
    if s.len() > 0 && spec_space_byte(s.last()) {
        spec_trim_end(s.drop_last())
    } else {
        s
    }
}

/// `s` with leading ASCII whitespace removed.
pub open spec fn spec_trim_start(s: Seq<u8>) -> Seq<u8>
    decreases s.len(),
{
    if s.len() > 0 && spec_space_byte(s[0]) {
        spec_trim_start(s.skip(1))
    } else {
        s
    }
}

/// `s` with ASCII whitespace removed from both ends.
pub open spec fn spec_trim(s: Seq<u8>) -> Seq<u8> {
    spec_trim_start(spec_trim_end(s))
}

/// Trims ASCII whitespace from both ends of `s`.
pub fn trim_bytes(s: &[u8]) -> (r: Vec<u8>)
    ensures
        r@ == spec_trim(s@),
{
    let mut hi: usize = s.len();
    proof {
        assert(s@.take(s@.len() as int) =~= s@);
    }
    while hi > 0 && space_byte(s[hi - 1])
        invariant
            0 <= hi <= s@.len(),
            spec_trim_end(s@) == spec_trim_end(s@.take(hi as int)),
        decreases hi,
    {
        proof {
            assert(s@.take(hi as int).drop_last() =~= s@.take(hi - 1));
        }
        hi -= 1;
    }
    let ghost t = s@.take(hi as int);
    proof {
        assert(spec_trim_end(t) == t);
    }
    let mut lo: usize = 0;
    proof {
        assert(t.skip(0) =~= t);
    }
    while lo < hi && space_byte(s[lo])
        invariant
            0 <= lo <= hi <= s@.len(),
            t == s@.take(hi as int),
            spec_trim_start(t) == spec_trim_start(t.skip(lo as int)),
        decreases hi - lo,
    {
        proof {
            assert(t.skip(lo as int)[0] == s@[lo as int]);
            assert(t.skip(lo as int).skip(1) =~= t.skip(lo + 1));
        }
        lo += 1;
    }
    proof {
        if lo < hi {
            assert(t.skip(lo as int)[0] == s@[lo as int]);
        }
        assert(spec_trim_start(t.skip(lo as int)) == t.skip(lo as int));
    }
    let r = copy_range(s, lo, hi);
    proof {
        assert(r@ =~= t.skip(lo as int));
    }
    r
}

/// Index of the first line feed in `s`, or `s.len()` if there is none.
pub open spec fn spec_find_nl(s: Seq<u8>) -> int
    decreases s.len(),
{
    if s.len() == 0 {
        0
    } else if s[0] == 10 {
        0
    } else {
        1 + spec_find_nl(s.skip(1))
    }
}

/// `spec_find_nl` finds the first line feed.
pub proof fn lemma_find_nl(s: Seq<u8>)
    ensures
        0 <= spec_find_nl(s) <= s.len(),
        spec_find_nl(s) < s.len() ==> s[spec_find_nl(s)] == 10,
        forall|i: int| 0 <= i < spec_find_nl(s) ==> s[i] != 10,
    decreases s.len(),
{
    if s.len() > 0 && s[0] != 10 {
        lemma_find_nl(s.skip(1));
        assert forall|i: int| 0 <= i < spec_find_nl(s) implies s[i] != 10 by {
            if i > 0 {
                assert(s.skip(1)[i - 1] != 10);
            }
        }
    }
}

/// The lines of `s`, split at line feeds; a final line needs no line feed,
/// and a trailing line feed opens no empty extra line.
pub open spec fn spec_lines(s: Seq<u8>) -> Seq<Seq<u8>>
    decreases s.len(),
    via spec_lines_decreases
{
    if s.len() == 0 {
        Seq::empty()
    } else {
        let n = spec_find_nl(s);
        if n == s.len() {
            seq![s]
        } else {
            seq![s.take(n)] + spec_lines(s.skip(n + 1))
        }
    }
}

#[via_fn]
proof fn spec_lines_decreases(s: Seq<u8>) {
    lemma_find_nl(s);
}

/// View of a vector of byte lines as a sequence of byte sequences.
pub open spec fn spec_lines_view(v: Seq<Vec<u8>>) -> Seq<Seq<u8>> {
    v.map_values(|l: Vec<u8>| l@)
}

/// Splits a byte string into its lines.
pub fn split_lines(s: &[u8]) -> (r: Vec<Vec<u8>>)
    ensures
        spec_lines_view(r@) == spec_lines(s@),
{
    let mut out: Vec<Vec<u8>> = Vec::new();
    let mut pos: usize = 0;
    proof {
        assert(s@.skip(0) =~= s@);
        assert(spec_lines_view(Seq::<Vec<u8>>::empty()) + spec_lines(s@) =~= spec_lines(s@));
    }
    while pos < s.len()
        invariant
            0 <= pos <= s@.len(),
            spec_lines(s@) == spec_lines_view(out@) + spec_lines(s@.skip(pos as int)),
        decreases s@.len() - pos,
    {
        let ghost rest = s@.skip(pos as int);
        let ghost prev = spec_lines_view(out@);
        let mut k: usize = pos;
        while k < s.len() && s[k] != 10
            invariant
                pos <= k <= s@.len(),
                forall|i: int| pos <= i < k ==> s@[i] != 10,
            decreases s@.len() - k,
        {
            k += 1;
        }
        proof {
            lemma_find_nl(rest);
            let n = spec_find_nl(rest);
            if k - pos < n {
                assert(rest[k - pos] == s@[k as int]);
                assert(false);
            }
            if k - pos > n {
                assert(s@[pos + n] == rest[n]);
                assert(false);
            }
        }
        let line = copy_range(s, pos, k);
        proof {
            assert(line@ =~= rest.take(k - pos as int));
        }
        out.push(line);
        proof {
            let n = spec_find_nl(rest);
            assert(spec_lines_view(out@) =~= prev + seq![line@]);
            if n == rest.len() {
                assert(rest =~= line@);
                assert(spec_lines(rest) == seq![rest]);
            } else {
                assert(rest.skip(n + 1) =~= s@.skip(k + 1));
            }
        }
        if k == s.len() {
            pos = s.len();
            proof {
                assert(s@.skip(pos as int) =~= Seq::<u8>::empty());
            }
        } else {
            pos = k + 1;
        }
    }
    proof {
        assert(s@.skip(pos as int) =~= Seq::<u8>::empty());
        assert(spec_lines_view(out@) =~= spec_lines(s@));
    }
    out
}

} // verus!
