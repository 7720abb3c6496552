//! RFC 2047 encoded-word decoding for message headers:
//! `=?charset?encoding?text?=` tokens with `B` (base64) and `Q`
//! (quoted-printable) payloads.

use vstd::prelude::*;
use vstd::string::StringSliceAdditionalSpecFns;
use vstd::string::StringExecFns;
use crate::textutil::copy_range;
use crate::textutil::lower_byte;
use crate::textutil::spec_lower_byte;
use crate::textutil::spec_trim;
use crate::textutil::trim_bytes;
use crate::textutil::utf8_lossy;
use crate::textutil::utf8_lossy_of;

verus! {

/// Value of one ASCII hex digit, upper or lower case.
pub open spec fn spec_hex_val(b: u8) -> Option<u8> {
    if 48 <= b <= 57 {
        Some((b - 48) as u8)
    } else if 65 <= b <= 70 {
        Some((b - 55) as u8)
    } else if 97 <= b <= 102 {
        Some((b - 87) as u8)
    } else {
        None
    }
}

/// Decodes one ASCII hex digit.
pub fn hex_val(b: u8) -> (r: Option<u8>)
    ensures
        r == spec_hex_val(b),
{
    if 48 <= b && b <= 57 {
        Some(b - 48)
    } else if 65 <= b && b <= 70 {
        Some(b - 55)
    } else if 97 <= b && b <= 102 {
        Some(b - 87)
    } else {
        None
    }
}

/// Quoted-printable decoding of a header payload: `=XY` with two hex
/// digits becomes one byte, `_` becomes a space, everything else passes
/// through unchanged (an `=` without two hex digits passes through too).
pub open spec fn spec_qp_decode(s: Seq<u8>) -> Seq<u8>
    decreases s.len(),
{
    if s.len() == 0 {
        Seq::empty()
    } else if s[0] == 61 && s.len() >= 3 && spec_hex_val(s[1]) is Some && spec_hex_val(
        s[2],
    ) is Some {
        seq![(spec_hex_val(s[1])->Some_0 * 16 + spec_hex_val(s[2])->Some_0) as u8]
            + spec_qp_decode(s.skip(3))
    } else if s[0] == 95 {
        seq![32u8] + spec_qp_decode(s.skip(1))
    } else {
        seq![s[0]] + spec_qp_decode(s.skip(1))
    }
}

/// Decodes a quoted-printable header payload.
pub fn qp_decode(s: &[u8]) -> (r: Vec<u8>)
    ensures
        r@ == spec_qp_decode(s@),
{
    let mut out: Vec<u8> = Vec::new();
    let mut i: usize = 0;
    let slen = s.len();
    proof {
        assert(s@.len() == slen as int);
        assert(s@.skip(0) =~= s@);
        assert(Seq::<u8>::empty() + spec_qp_decode(s@) =~= spec_qp_decode(s@));
    }
    while i < s.len()
        invariant
            0 <= i <= s@.len() <= usize::MAX,
            spec_qp_decode(s@) == out@ + spec_qp_decode(s@.skip(i as int)),
        decreases s@.len() - i,
    {
        let ghost rest = s@.skip(i as int);
        let ghost prev = out@;
        proof {
            assert(rest[0] == s@[i as int]);
        }
        if s[i] == 61 && s.len() - i > 2 {
            proof {
                assert(rest[1] == s@[i + 1] && rest[2] == s@[i + 2]);
            }
            let h1 = hex_val(s[i + 1]);
            let h2 = hex_val(s[i + 2]);
            match (h1, h2) {
                (Some(a), Some(b)) => {
                    out.push(a * 16 + b);
                    proof {
                        assert(rest.skip(3) =~= s@.skip(i + 3));
                        assert(out@ =~= prev + seq![(a * 16 + b) as u8]);
                    }
                    i += 3;
                    continue ;
                },
                _ => {},
            }
        }
        if s[i] == 95 {
            out.push(32);
            proof {
                assert(out@ =~= prev + seq![32u8]);
            }
        } else {
            out.push(s[i]);
            proof {
                assert(out@ =~= prev + seq![s@[i as int]]);
            }
        }
        proof {
            assert(rest.skip(1) =~= s@.skip(i + 1));
        }
        i += 1;
    }
    proof {
        assert(s@.skip(s@.len() as int) =~= Seq::<u8>::empty());
        assert(out@ =~= spec_qp_decode(s@));
    }
    out
}

/// Decodes the quoted-printable payload of an encoded word; decoding never
/// fails, so the result is always present.
pub fn decode_quoted_printable_header(input: &str) -> (r: Option<Vec<u8>>)
    ensures
        r matches Some(v) && v@ == spec_qp_decode(input.spec_bytes()),
{
    Some(qp_decode(input.as_bytes()))
}

/// What base64's standard-alphabet decoding returns: the decoded bytes,
/// or nothing when the payload is not valid base64.
pub uninterp spec fn b64_decode_of(s: Seq<u8>) -> Option<Seq<u8>>;

/// Relies on the `base64` crate's `STANDARD` engine `decode`: it either
/// decodes the payload or reports an error, and the outcome depends on
/// the payload bytes alone.
#[verifier::external_body]
fn b64_decode(text: &[u8]) -> (r: Option<Vec<u8>>)
    ensures
        r is Some <==> b64_decode_of(text@) is Some,
        r matches Some(v) ==> b64_decode_of(text@) matches Some(w) && v@ == w,
{
    base64::Engine::decode(&base64::engine::general_purpose::STANDARD, text).ok()
}

/// What `String::from_utf8_lossy` returns, re-encoded as UTF-8 bytes.
pub uninterp spec fn utf8_lossy_bytes_of(b: Seq<u8>) -> Seq<u8>;

/// Relies on `String::from_utf8_lossy`: valid UTF-8 passes through
/// unchanged (pure ASCII in particular), invalid sequences become
/// replacement characters, and the repaired bytes decode to the same
/// string as the original bytes.
#[verifier::external_body]
pub(crate) fn utf8_lossy_bytes(b: &[u8]) -> (r: Vec<u8>)
    ensures
        r@ == utf8_lossy_bytes_of(b@),
        (forall|i: int| 0 <= i < b@.len() ==> b@[i] < 128) ==> r@ == b@,
        utf8_lossy_of(r@) == utf8_lossy_of(b@),
        b@.len() == 0 ==> r@.len() == 0,
{
    String::from_utf8_lossy(b).into_owned().into_bytes()
}

/// Index of the first occurrence of the byte pair `x y` in `s`, or
/// `s.len()` if there is none.
pub open spec fn spec_find_pair(s: Seq<u8>, x: u8, y: u8) -> int
    decreases s.len(),
{
    if s.len() < 2 {
        s.len() as int
    } else if s[0] == x && s[1] == y {
        0
    } else {
        1 + spec_find_pair(s.skip(1), x, y)
    }
}

/// `spec_find_pair` finds the first occurrence of the pair.
pub proof fn lemma_find_pair(s: Seq<u8>, x: u8, y: u8)
    ensures
        0 <= spec_find_pair(s, x, y) <= s.len(),
        spec_find_pair(s, x, y) + 2 <= s.len() ==> s[spec_find_pair(s, x, y)] == x
            && s[spec_find_pair(s, x, y) + 1] == y,
        forall|i: int| 0 <= i < spec_find_pair(s, x, y) && i + 2 <= s.len() ==> !(#[trigger] s[i]
            == x && s[i + 1] == y),
        spec_find_pair(s, x, y) + 2 > s.len() ==> spec_find_pair(s, x, y) == s.len(),
    decreases s.len(),
{
    if s.len() >= 2 && !(s[0] == x && s[1] == y) {
        lemma_find_pair(s.skip(1), x, y);
        assert forall|i: int|
            0 <= i < spec_find_pair(s, x, y) && i + 2 <= s.len() implies !(#[trigger] s[i] == x
            && s[i + 1] == y) by {
            if i > 0 {
                assert(s.skip(1)[i - 1] == s[i] && s.skip(1)[i] == s[i + 1]);
            }
        }
    }
}

/// Index of the first occurrence of `b` in `s`, or `s.len()`.
pub open spec fn spec_find_byte(s: Seq<u8>, b: u8) -> int
    decreases s.len(),
{
    if s.len() == 0 {
        0
    } else if s[0] == b {
        0
    } else {
        1 + spec_find_byte(s.skip(1), b)
    }
}

/// `spec_find_byte` finds the first occurrence of the byte.
pub proof fn lemma_find_byte(s: Seq<u8>, b: u8)
    ensures
        0 <= spec_find_byte(s, b) <= s.len(),
        spec_find_byte(s, b) < s.len() ==> s[spec_find_byte(s, b)] == b,
        forall|i: int| 0 <= i < spec_find_byte(s, b) ==> s[i] != b,
    decreases s.len(),
{
    if s.len() > 0 && s[0] != b {
        lemma_find_byte(s.skip(1), b);
        assert forall|i: int| 0 <= i < spec_find_byte(s, b) implies s[i] != b by {
            if i > 0 {
                assert(s.skip(1)[i - 1] != b);
            }
        }
    }
}

/// Finds the first occurrence of the byte pair `x y` at or after `from`,
/// returning `s.len()` if there is none.
pub fn find_pair_from(s: &[u8], from: usize, x: u8, y: u8) -> (r: usize)
    requires
        from <= s@.len(),
    ensures
        from <= r <= s@.len(),
        r - from == spec_find_pair(s@.skip(from as int), x, y),
{
    let ghost rest = s@.skip(from as int);
    if s.len() - from < 2 {
        proof {
            lemma_find_pair(rest, x, y);
        }
        return s.len();
    }
    let mut k: usize = from;
    while k < s.len() - 1 && !(s[k] == x && s[k + 1] == y)
        invariant
            from <= k <= s@.len() - 1,
            s@.len() >= 2,
            forall|i: int| from <= i < k ==> !(#[trigger] s@[i] == x && s@[i + 1] == y),
        decreases s@.len() - k,
    {
        k += 1;
    }
    proof {
        lemma_find_pair(rest, x, y);
        let n = spec_find_pair(rest, x, y);
        if k < s@.len() - 1 {
            if n < k - from {
                assert(rest[n] == s@[from + n] && rest[n + 1] == s@[from + n + 1]);
                assert(false);
            }
            if n > k - from {
                assert(rest[k - from] == s@[k as int] && rest[k - from + 1] == s@[k + 1]);
                assert(false);
            }
        } else {
            if n + 2 <= rest.len() {
                assert(rest[n] == s@[from + n] && rest[n + 1] == s@[from + n + 1]);
                assert(!(s@[from + n] == x && s@[from + n + 1] == y));
                assert(false);
            }
        }
    }
    if k < s.len() - 1 {
        k
    } else {
        s.len()
    }
}

/// Finds the first occurrence of `b` in `s[from..to]`, returning `to` if
/// there is none.
pub fn find_byte_in(s: &[u8], from: usize, to: usize, b: u8) -> (r: usize)
    requires
        from <= to <= s@.len(),
    ensures
        from <= r <= to,
        r - from == spec_find_byte(s@.subrange(from as int, to as int), b),
{
    let ghost part = s@.subrange(from as int, to as int);
    let mut k: usize = from;
    while k < to && s[k] != b
        invariant
            from <= k <= to,
            to <= s@.len(),
            forall|i: int| from <= i < k ==> s@[i] != b,
        decreases to - k,
    {
        k += 1;
    }
    proof {
        lemma_find_byte(part, b);
        let n = spec_find_byte(part, b);
        if n < k - from {
            assert(part[n] == s@[from + n]);
            assert(false);
        }
        if n > k - from {
            assert(part[k - from] == s@[k as int]);
            assert(false);
        }
    }
    k
}

/// The encoding letter names a known payload encoding, compared without
/// regard to ASCII case: `b` is base64, `q` is quoted-printable.
pub open spec fn spec_enc_is(enc: Seq<u8>, lower: u8) -> bool {
    enc.len() == 1 && spec_lower_byte(enc[0]) == lower
}

/// The encoding field of the first complete `=?charset?encoding?text?=`
/// token of `s`, if the shape is present at all.
pub open spec fn spec_first_token_enc(s: Seq<u8>) -> Option<Seq<u8>> {
    let a = spec_find_pair(s, 61, 63);
    if a + 2 > s.len() {
        None
    } else {
        let b = a + 2 + spec_find_pair(s.skip(a + 2), 63, 61);
        if b + 2 > s.len() {
            None
        } else {
            let encoded = s.subrange(a + 2, b);
            let k1 = spec_find_byte(encoded, 63);
            if k1 >= encoded.len() {
                None
            } else {
                let k2 = k1 + 1 + spec_find_byte(encoded.skip(k1 + 1), 63);
                if k2 >= encoded.len() {
                    None
                } else {
                    Some(encoded.subrange(k1 + 1, k2))
                }
            }
        }
    }
}

/// RFC 2047 decoding of a whole header: each leading `=?charset?enc?text?=`
/// token in turn is replaced by its decoded payload, repaired to valid
/// UTF-8; scanning continues after the token. The first token that cannot
/// be decoded (malformed shape, unknown encoding letter, or an invalid
/// base64 payload) stops the scan, and the rest of the header stays
/// verbatim. The declared charset never changes the outcome: GB-family
/// charsets are tried as UTF-8 first and fall back to lossy decoding, which
/// is byte-for-byte what lossy UTF-8 decoding does for every charset here.
pub open spec fn spec_decode_header(s: Seq<u8>) -> Seq<u8>
    decreases s.len(),
    via spec_decode_header_decreases
{
    let a = spec_find_pair(s, 61, 63);
    if a + 2 > s.len() {
        s
    } else {
        let b = a + 2 + spec_find_pair(s.skip(a + 2), 63, 61);
        if b + 2 > s.len() {
            s
        } else {
            let encoded = s.subrange(a + 2, b);
            let k1 = spec_find_byte(encoded, 63);
            if k1 >= encoded.len() {
                s
            } else {
                let k2 = k1 + 1 + spec_find_byte(encoded.skip(k1 + 1), 63);
                if k2 >= encoded.len() {
                    s
                } else {
                    let enc = encoded.subrange(k1 + 1, k2);
                    let text = encoded.skip(k2 + 1);
                    let payload = if spec_enc_is(enc, 98) {
                        b64_decode_of(text)
                    } else if spec_enc_is(enc, 113) {
                        Some(spec_qp_decode(text))
                    } else {
                        None
                    };
                    match payload {
                        Some(bytes) => s.take(a) + utf8_lossy_bytes_of(bytes)
                            + spec_decode_header(s.skip(b + 2)),
                        None => s,
                    }
                }
            }
        }
    }
}

#[via_fn]
proof fn spec_decode_header_decreases(s: Seq<u8>) {
    lemma_find_pair(s, 61, 63);
    let a = spec_find_pair(s, 61, 63);
    if a + 2 <= s.len() {
        lemma_find_pair(s.skip(a + 2), 63, 61);
    }
}

/// Appends `s[i..j]` to `out`.
fn append_range(out: &mut Vec<u8>, s: &[u8], i: usize, j: usize)
    requires
        i <= j <= s@.len(),
    ensures
        final(out)@ == old(out)@ + s@.subrange(i as int, j as int),
{
    let mut k: usize = i;
    while k < j
        invariant
            i <= k <= j <= s@.len(),
            out@ == old(out)@ + s@.subrange(i as int, k as int),
        decreases j - k,
    {
        out.push(s[k]);
        assert(out@ =~= old(out)@ + s@.subrange(i as int, k + 1));
        k += 1;
    }
}

/// Appends all of `v` to `out`.
fn append_all(out: &mut Vec<u8>, v: &[u8])
    ensures
        final(out)@ == old(out)@ + v@,
{
    append_range(out, v, 0, v.len());
    assert(v@.subrange(0, v@.len() as int) =~= v@);
}

/// Decodes every leading RFC 2047 encoded word of a raw header.
pub fn decode_header_bytes(s: &[u8]) -> (r: Vec<u8>)
    ensures
        r@ == spec_decode_header(s@),
{
    let mut out: Vec<u8> = Vec::new();
    let mut pos: usize = 0;
    let mut done = false;
    let slen = s.len();
    proof {
        assert(s@.len() == slen as int);
        assert(s@.skip(0) =~= s@);
        assert(Seq::<u8>::empty() + spec_decode_header(s@) =~= spec_decode_header(s@));
    }
    while !done
        invariant
            0 <= pos <= s@.len() <= usize::MAX,
            spec_decode_header(s@) == out@ + (if done {
                s@.skip(pos as int)
            } else {
                spec_decode_header(s@.skip(pos as int))
            }),
        decreases s@.len() - pos, (if done {
            0int
        } else {
            1int
        }),
    {
        let ghost rest = s@.skip(pos as int);
        let ghost prev = out@;
        let a_abs = find_pair_from(s, pos, 61, 63);
        proof {
            assert(rest.len() == s@.len() - pos);
        }
        if s.len() - a_abs < 2 {
            proof {
                assert(spec_decode_header(rest) == rest);
            }
            done = true;
            continue ;
        }
        let b_abs = find_pair_from(s, a_abs + 2, 63, 61);
        let ghost a = a_abs - pos;
        let ghost b = b_abs - pos;
        proof {
            assert(rest.skip(a + 2) =~= s@.skip(a_abs + 2));
            assert(b == a + 2 + spec_find_pair(rest.skip(a + 2), 63, 61));
        }
        if s.len() - b_abs < 2 {
            proof {
                assert(spec_decode_header(rest) == rest);
            }
            done = true;
            continue ;
        }
        let ghost encoded = rest.subrange(a + 2, b);
        proof {
            assert(encoded =~= s@.subrange(a_abs + 2, b_abs as int));
        }
        let k1_abs = find_byte_in(s, a_abs + 2, b_abs, 63);
        let ghost k1 = k1_abs - (a_abs + 2);
        proof {
            assert(k1 == spec_find_byte(encoded, 63));
        }
        if k1_abs >= b_abs {
            proof {
                assert(k1 >= encoded.len());
                assert(spec_decode_header(rest) == rest);
            }
            done = true;
            continue ;
        }
        let k2_abs = find_byte_in(s, k1_abs + 1, b_abs, 63);
        let ghost k2 = k2_abs - (a_abs + 2);
        proof {
            assert(encoded.skip(k1 + 1) =~= s@.subrange(k1_abs + 1, b_abs as int));
            assert(k2 == k1 + 1 + spec_find_byte(encoded.skip(k1 + 1), 63));
        }
        if k2_abs >= b_abs {
            proof {
                assert(k2 >= encoded.len());
                assert(spec_decode_header(rest) == rest);
            }
            done = true;
            continue ;
        }
        let ghost enc = encoded.subrange(k1 + 1, k2);
        let ghost text = encoded.skip(k2 + 1);
        proof {
            assert(enc =~= s@.subrange(k1_abs + 1, k2_abs as int));
            assert(text =~= s@.subrange(k2_abs + 1, b_abs as int));
        }
        let payload: Option<Vec<u8>> = if k2_abs - k1_abs == 2 {
            let e = lower_byte(s[k1_abs + 1]);
            proof {
                assert(enc.len() == 1 && enc[0] == s@[k1_abs + 1]);
            }
            if e == 98 {
                let textv = copy_range(s, k2_abs + 1, b_abs);
                b64_decode(textv.as_slice())
            } else if e == 113 {
                let textv = copy_range(s, k2_abs + 1, b_abs);
                Some(qp_decode(textv.as_slice()))
            } else {
                None
            }
        } else {
            proof {
                assert(enc.len() != 1);
            }
            None
        };
        match payload {
            Some(bytes) => {
                append_range(&mut out, s, pos, a_abs);
                let repaired = utf8_lossy_bytes(bytes.as_slice());
                append_all(&mut out, repaired.as_slice());
                proof {
                    assert(rest.take(a) =~= s@.subrange(pos as int, a_abs as int));
                    assert(rest.skip(b + 2) =~= s@.skip(b_abs + 2));
                    assert(out@ =~= prev + rest.take(a) + utf8_lossy_bytes_of(
                        spec_decode_payload(enc, text),
                    ));
                }
                pos = b_abs + 2;
            },
            None => {
                proof {
                    assert(spec_decode_header(rest) == rest);
                }
                done = true;
            },
        }
    }
    append_range(&mut out, s, pos, s.len());
    proof {
        assert(s@.subrange(pos as int, s@.len() as int) =~= s@.skip(pos as int));
    }
    out
}

/// The payload bytes of one token under its encoding letter, when known.
pub open spec fn spec_decode_payload(enc: Seq<u8>, text: Seq<u8>) -> Seq<u8> {
    if spec_enc_is(enc, 98) {
        b64_decode_of(text)->Some_0
    } else {
        spec_qp_decode(text)
    }
}

/// Decodes RFC 2047 encoded words in a header, yielding the displayable
/// header text. A header without any `=?` token passes through
/// unchanged; one with a token is decoded and then trimmed of
/// surrounding ASCII whitespace.
pub fn decode_mime_header(input: &str) -> (r: String)
    ensures
        spec_find_pair(input.spec_bytes(), 61, 63) + 2 > input.spec_bytes().len() ==> r@
            == input@,
        spec_find_pair(input.spec_bytes(), 61, 63) + 2 <= input.spec_bytes().len() ==> r@
            == utf8_lossy_of(spec_trim(spec_decode_header(input.spec_bytes()))),
{
    let bytes = input.as_bytes();
    let p = find_pair_from(bytes, 0, 61, 63);
    proof {
        assert(bytes@.skip(0) =~= bytes@);
    }
    if bytes.len() - p < 2 {
        return input.to_owned();
    }
    let decoded = decode_header_bytes(bytes);
    let trimmed = trim_bytes(decoded.as_slice());
    utf8_lossy(trimmed.as_slice())
}

/// An encoded word whose encoding letter is neither `B` nor `Q` stops
/// decoding: the token, and everything after it, is left unmodified in
/// the output rather than dropped.
pub proof fn lemma_unknown_encoding_kept(s: Seq<u8>)
    requires
        spec_first_token_enc(s) matches Some(enc) && !spec_enc_is(enc, 98) && !spec_enc_is(
            enc,
            113,
        ),
    ensures
        spec_decode_header(s) == s,
{
}

} // verus!
