//! A specification-level parser for the produced wire format, and proofs
//! that parsing inverts encoding: the bytes of a well-formed request parse
//! back to the same method, path, version, headers and body.

use vstd::prelude::*;
use crate::headers::{
    content_length_name, chunked_token, eq_ignore_case, is_tchar, lower_bytes,
    transfer_encoding_name, valid_header_name, valid_header_value,
};
use crate::message::Version;
use crate::wire::{
    crlf, colon_sp, chunk_bytes, dec_digits, header_line_bytes, hex_digit, hex_digits,
    last_chunk_bytes, request_line_bytes, sp,
};

verus! {

/// Index of the first occurrence of `b` in `s`, or -1.
pub open spec fn find_byte(s: Seq<u8>, b: u8) -> int
    decreases s.len(),
{
    if s.len() == 0 {
        -1
    } else if s[0] == b {
        0
    } else {
        let r = find_byte(s.drop_first(), b);
        if r < 0 {
            -1
        } else {
            r + 1
        }
    }
}

/// In `a + c`, where `a` is free of `b` and `c` starts with `b`, the first
/// occurrence of `b` is at `a.len()`.
pub proof fn lemma_find_byte_prefix(a: Seq<u8>, c: Seq<u8>, b: u8)
    requires
        forall|i: int| 0 <= i < a.len() ==> a[i] != b,
        c.len() > 0,
        c[0] == b,
    ensures
        find_byte(a + c, b) == a.len(),
    decreases a.len(),
{
    if a.len() == 0 {
        assert(a + c =~= c);
    } else {
        assert((a + c)[0] == a[0]);
        assert((a + c).drop_first() =~= a.drop_first() + c);
        lemma_find_byte_prefix(a.drop_first(), c, b);
    }
}

/// Split one CRLF-terminated line: the line without its terminator, and the
/// bytes after the terminator.  The first CR must be followed by LF.
pub open spec fn parse_crlf_line(s: Seq<u8>) -> Option<(Seq<u8>, Seq<u8>)> {
    let i = find_byte(s, 13);
    if i >= 0 && i + 1 < s.len() && s[i + 1] == 10 {
        Some((s.take(i), s.skip(i + 2)))
    } else {
        None
    }
}

/// Splitting `line CRLF rest` recovers `line` and `rest` whenever the line
/// is free of CR.
pub proof fn lemma_parse_crlf_line(line: Seq<u8>, rest: Seq<u8>)
    requires
        forall|i: int| 0 <= i < line.len() ==> line[i] != 13,
    ensures
        parse_crlf_line(line + crlf() + rest) == Some((line, rest)),
{
    let s = line + crlf() + rest;
    assert(s =~= line + (crlf() + rest));
    assert((crlf() + rest)[0] == 13);
    lemma_find_byte_prefix(line, crlf() + rest, 13);
    let i = line.len() as int;
    assert(s[i + 1] == (crlf() + rest)[1]);
    assert(s.take(i) =~= line);
    assert(s.skip(i + 2) =~= rest);
}

/// Parse `METHOD SP PATH SP VERSION CRLF`, returning the three tokens and
/// the bytes after the line.
pub open spec fn parse_request_line(s: Seq<u8>) -> Option<(Seq<u8>, Seq<u8>, Seq<u8>, Seq<u8>)> {
    match parse_crlf_line(s) {
        None => None,
        Some((line, rest)) => {
            let i = find_byte(line, 32);
            if i < 0 {
                None
            } else {
                let method = line.take(i);
                let r1 = line.skip(i + 1);
                let j = find_byte(r1, 32);
                if j < 0 {
                    None
                } else {
                    let path = r1.take(j);
                    let version = r1.skip(j + 1);
                    if method.len() > 0 && path.len() > 0 {
                        Some((method, path, version, rest))
                    } else {
                        None
                    }
                }
            }
        },
    }
}

/// Free of space, CR and LF: what a serialized-verbatim request-line token
/// must satisfy for the line to parse back.
pub open spec fn no_sp_cr_lf(s: Seq<u8>) -> bool {
    forall|i: int| 0 <= i < s.len() ==> (#[trigger] s[i]) != 32 && s[i] != 13 && s[i] != 10
}

/// The version tokens contain no space, CR or LF.
pub proof fn lemma_version_text_clean(v: Version)
    ensures
        no_sp_cr_lf(v.text()),
        v.text().len() == 8,
{
    match v {
        Version::Http10 => {
            assert forall|i: int| 0 <= i < v.text().len() implies (#[trigger] v.text()[i]) != 32
                && v.text()[i] != 13 && v.text()[i] != 10 by {
                if i == 0 || i == 1 || i == 2 || i == 3 || i == 4 || i == 5 || i == 6 || i == 7 {
                }
            }
        },
        Version::Http11 => {
            assert forall|i: int| 0 <= i < v.text().len() implies (#[trigger] v.text()[i]) != 32
                && v.text()[i] != 13 && v.text()[i] != 10 by {
                if i == 0 || i == 1 || i == 2 || i == 3 || i == 4 || i == 5 || i == 6 || i == 7 {
                }
            }
        },
    }
}

/// The request line of a well-formed request parses back to its tokens.
pub proof fn lemma_request_line_roundtrip(m: Seq<u8>, p: Seq<u8>, v: Version, rest: Seq<u8>)
    requires
        m.len() > 0,
        p.len() > 0,
        no_sp_cr_lf(m),
        no_sp_cr_lf(p),
    ensures
        parse_request_line(request_line_bytes(m, p, v.text()) + rest) == Some(
            (m, p, v.text(), rest),
        ),
{
    lemma_version_text_clean(v);
    let vt = v.text();
    let line = m + sp() + p + sp() + vt;
    assert(forall|i: int| 0 <= i < line.len() ==> (#[trigger] line[i]) != 13);
    assert(request_line_bytes(m, p, vt) + rest =~= line + crlf() + rest);
    lemma_parse_crlf_line(line, rest);
    assert(line =~= m + (sp() + p + sp() + vt));
    assert((sp() + p + sp() + vt)[0] == 32);
    lemma_find_byte_prefix(m, sp() + p + sp() + vt, 32);
    let i = m.len() as int;
    assert(line.take(i) =~= m);
    assert(line.skip(i + 1) =~= p + (sp() + vt));
    assert((sp() + vt)[0] == 32);
    lemma_find_byte_prefix(p, sp() + vt, 32);
    let r1 = p + (sp() + vt);
    let j = p.len() as int;
    assert(r1.take(j) =~= p);
    assert(r1.skip(j + 1) =~= vt);
}

/// Parse one `Name: value` line (already stripped of its CRLF).
pub open spec fn parse_header_line(line: Seq<u8>) -> Option<(Seq<u8>, Seq<u8>)> {
    let i = find_byte(line, 58);
    if i >= 0 && i + 1 < line.len() && line[i + 1] == 32 {
        Some((line.take(i), line.skip(i + 2)))
    } else {
        None
    }
}

/// One serialized header line parses back to its name and value.
pub proof fn lemma_header_line_roundtrip(n: Seq<u8>, v: Seq<u8>, rest: Seq<u8>)
    requires
        valid_header_name(n),
        valid_header_value(v),
    ensures
        parse_crlf_line(header_line_bytes(n, v) + rest) == Some((n + colon_sp() + v, rest)),
        parse_header_line(n + colon_sp() + v) == Some((n, v)),
{
    let line = n + colon_sp() + v;
    assert(forall|i: int| 0 <= i < line.len() ==> (#[trigger] line[i]) != 13);
    assert(header_line_bytes(n, v) + rest =~= line + crlf() + rest);
    lemma_parse_crlf_line(line, rest);
    assert(line =~= n + (colon_sp() + v));
    assert((colon_sp() + v)[0] == 58);
    assert(forall|i: int| 0 <= i < n.len() ==> (#[trigger] n[i]) != 58);
    lemma_find_byte_prefix(n, colon_sp() + v, 58);
    let i = n.len() as int;
    assert(line[i + 1] == (colon_sp() + v)[1]);
    assert(line.take(i) =~= n);
    assert(line.skip(i + 2) =~= v);
}

/// Parse header lines up to and over the blank line that closes them.
pub open spec fn parse_headers(s: Seq<u8>) -> Option<(Seq<(Seq<u8>, Seq<u8>)>, Seq<u8>)>
    decreases s.len(),
{
    match parse_crlf_line(s) {
        None => None,
        Some((line, rest)) => if line.len() == 0 {
            Some((Seq::empty(), rest))
        } else {
            match parse_header_line(line) {
                None => None,
                Some((n, v)) => match parse_headers(rest) {
                    None => None,
                    Some((hs, rest2)) => Some((seq![(n, v)] + hs, rest2)),
                },
            }
        },
    }
}

/// The serialization of a list of header lines.
pub open spec fn headers_bytes(hs: Seq<(Seq<u8>, Seq<u8>)>) -> Seq<u8>
    decreases hs.len(),
{
    if hs.len() == 0 {
        Seq::empty()
    } else {
        header_line_bytes(hs[0].0, hs[0].1) + headers_bytes(hs.drop_first())
    }
}

/// Every listed header has a legal name and value.
pub open spec fn wf_headers(hs: Seq<(Seq<u8>, Seq<u8>)>) -> bool {
    forall|k: int|
        0 <= k < hs.len() ==> valid_header_name((#[trigger] hs[k]).0) && valid_header_value(
            hs[k].1,
        )
}

/// A serialized header block followed by its blank line parses back to the
/// same list of headers.
pub proof fn lemma_headers_roundtrip(hs: Seq<(Seq<u8>, Seq<u8>)>, rest: Seq<u8>)
    requires
        wf_headers(hs),
    ensures
        parse_headers(headers_bytes(hs) + crlf() + rest) == Some((hs, rest)),
    decreases hs.len(),
{
    if hs.len() == 0 {
        let s = headers_bytes(hs) + crlf() + rest;
        assert(s =~= Seq::empty() + crlf() + rest);
        lemma_parse_crlf_line(Seq::empty(), rest);
        assert(s =~= Seq::<u8>::empty() + crlf() + rest);
        assert(parse_headers(s) == Some((Seq::<(Seq<u8>, Seq<u8>)>::empty(), rest)));
        assert(Seq::<(Seq<u8>, Seq<u8>)>::empty() =~= hs);
    } else {
        let h = hs[0];
        let tl = hs.drop_first();
        let tail_bytes = headers_bytes(tl) + crlf() + rest;
        lemma_header_line_roundtrip(h.0, h.1, tail_bytes);
        let s = headers_bytes(hs) + crlf() + rest;
        assert(s =~= header_line_bytes(h.0, h.1) + tail_bytes);
        let line = h.0 + colon_sp() + h.1;
        assert(line.len() > 0);
        lemma_headers_roundtrip(tl, rest);
        assert(seq![(h.0, h.1)] + tl =~= hs);
    }
}

/// A decimal digit byte.
pub open spec fn is_dec_digit(b: u8) -> bool {
    48 <= b && b <= 57
}

/// Value of a decimal digit string.
pub open spec fn dec_val(s: Seq<u8>) -> nat
    decreases s.len(),
{
    if s.len() == 0 {
        0
    } else {
        dec_val(s.drop_last()) * 10 + (if is_dec_digit(s.last()) {
            (s.last() - 48) as nat
        } else {
            0
        })
    }
}

/// Decimal encoding round trip: the digits of `n` are decimal digits and
/// evaluate back to `n`.
pub proof fn lemma_dec_digits_val(n: nat)
    ensures
        dec_val(dec_digits(n)) == n,
        dec_digits(n).len() >= 1,
        forall|i: int| 0 <= i < dec_digits(n).len() ==> is_dec_digit(#[trigger] dec_digits(n)[i]),
    decreases n,
{
    if n < 10 {
        let s = dec_digits(n);
        assert(s =~= seq![(48 + n) as u8]);
        assert(s.drop_last() =~= Seq::<u8>::empty());
        assert(dec_val(Seq::<u8>::empty()) == 0);
        assert(s.last() == (48 + n) as u8);
        assert(is_dec_digit(s.last()));
        assert(dec_val(s) == n);
    } else {
        lemma_dec_digits_val(n / 10);
        let s = dec_digits(n);
        assert(s == dec_digits(n / 10) + seq![(48 + n % 10) as u8]);
        assert(s.drop_last() =~= dec_digits(n / 10));
        assert(s.last() == (48 + n % 10) as u8);
        assert(dec_val(s) == (n / 10) * 10 + n % 10);
        assert((n / 10) * 10 + n % 10 == n) by {
            vstd::arithmetic::div_mod::lemma_fundamental_div_mod(n as int, 10);
        }
    }
}

/// A lower-case hexadecimal digit byte.
pub open spec fn is_hex_digit(b: u8) -> bool {
    (48 <= b && b <= 57) || (97 <= b && b <= 102)
}

pub open spec fn hex_digit_val(b: u8) -> nat {
    if 48 <= b && b <= 57 {
        (b - 48) as nat
    } else if 97 <= b && b <= 102 {
        (b - 87) as nat
    } else {
        0
    }
}

/// Value of a lower-case hexadecimal digit string.
pub open spec fn hex_val(s: Seq<u8>) -> nat
    decreases s.len(),
{
    if s.len() == 0 {
        0
    } else {
        hex_val(s.drop_last()) * 16 + hex_digit_val(s.last())
    }
}

/// Hexadecimal encoding round trip, with the facts the chunk parser needs:
/// the digits of `n` are hex digits, evaluate back to `n`, and carry no
/// leading zero, so only the terminating chunk ever shows a size of zero.
pub proof fn lemma_hex_digits_val(n: nat)
    ensures
        hex_val(hex_digits(n)) == n,
        hex_digits(n).len() >= 1,
        forall|i: int| 0 <= i < hex_digits(n).len() ==> is_hex_digit(#[trigger] hex_digits(n)[i]),
        n > 0 ==> hex_digits(n)[0] != 48,
    decreases n,
{
    if n < 16 {
        let s = hex_digits(n);
        assert(s =~= seq![hex_digit(n)]);
        assert(s.drop_last() =~= Seq::<u8>::empty());
        assert(hex_val(Seq::<u8>::empty()) == 0);
        assert(s.last() == hex_digit(n));
        assert(hex_val(s) == n);
    } else {
        lemma_hex_digits_val(n / 16);
        let s = hex_digits(n);
        assert(s == hex_digits(n / 16) + seq![hex_digit(n % 16)]);
        assert(s.drop_last() =~= hex_digits(n / 16));
        assert(s.last() == hex_digit(n % 16));
        assert(hex_val(s) == (n / 16) * 16 + n % 16);
        assert((n / 16) * 16 + n % 16 == n) by {
            vstd::arithmetic::div_mod::lemma_fundamental_div_mod(n as int, 16);
        }
        assert(s[0] == hex_digits(n / 16)[0]);
    }
}

/// Whether every byte of `s` is a lower-case hexadecimal digit.
pub open spec fn all_hex_digits(s: Seq<u8>) -> bool {
    forall|i: int| 0 <= i < s.len() ==> is_hex_digit(#[trigger] s[i])
}

/// Parse a chunked body: length-prefixed chunks down to and over the
/// terminating zero-length chunk.  Returns the concatenated chunk data and
/// the bytes after the body.
pub open spec fn parse_chunks(s: Seq<u8>) -> Option<(Seq<u8>, Seq<u8>)>
    decreases s.len(),
{
    match parse_crlf_line(s) {
        None => None,
        Some((line, rest)) => {
            if line.len() == 0 || !all_hex_digits(line) {
                None
            } else {
                let sz = hex_val(line) as int;
                if sz == 0 {
                    if rest.len() >= 2 && rest[0] == 13 && rest[1] == 10 {
                        Some((Seq::empty(), rest.skip(2)))
                    } else {
                        None
                    }
                } else {
                    if rest.len() >= sz + 2 && rest[sz] == 13 && rest[sz + 1] == 10 {
                        match parse_chunks(rest.skip(sz + 2)) {
                            None => None,
                            Some((body, rest2)) => Some((rest.take(sz) + body, rest2)),
                        }
                    } else {
                        None
                    }
                }
            }
        },
    }
}

/// The serialization of a sequence of body writes under chunked encoding.
pub open spec fn chunks_encoding(ws: Seq<Seq<u8>>) -> Seq<u8>
    decreases ws.len(),
{
    if ws.len() == 0 {
        Seq::empty()
    } else {
        chunk_bytes(ws[0]) + chunks_encoding(ws.drop_first())
    }
}

/// The body those writes carry: their concatenation.
pub open spec fn concat_all(ws: Seq<Seq<u8>>) -> Seq<u8>
    decreases ws.len(),
{
    if ws.len() == 0 {
        Seq::empty()
    } else {
        ws[0] + concat_all(ws.drop_first())
    }
}

/// A chunked body parses back to the concatenation of the written pieces,
/// whatever their segmentation, and consumes exactly one terminating chunk.
#[verifier::rlimit(50)]
pub proof fn lemma_chunked_body_roundtrip(ws: Seq<Seq<u8>>, rest: Seq<u8>)
    ensures
        parse_chunks(chunks_encoding(ws) + last_chunk_bytes() + rest) == Some(
            (concat_all(ws), rest),
        ),
    decreases ws.len(),
{
    if ws.len() == 0 {
        let s = chunks_encoding(ws) + last_chunk_bytes() + rest;
        assert(s =~= seq![48u8] + crlf() + (crlf() + rest));
        lemma_parse_crlf_line(seq![48u8], crlf() + rest);
        let line = seq![48u8];
        assert(line.drop_last() =~= Seq::<u8>::empty());
        assert(hex_val(Seq::<u8>::empty()) == 0);
        assert(line.last() == 48u8);
        assert(hex_digit_val(48u8) == 0);
        assert(hex_val(line) == 0);
        assert(all_hex_digits(line));
        assert((crlf() + rest)[0] == 13 && (crlf() + rest)[1] == 10);
        assert((crlf() + rest).skip(2) =~= rest);
        assert(concat_all(ws) =~= Seq::<u8>::empty());
    } else if ws[0].len() == 0 {
        let tl = ws.drop_first();
        lemma_chunked_body_roundtrip(tl, rest);
        assert(chunks_encoding(ws) + last_chunk_bytes() + rest =~= chunks_encoding(tl)
            + last_chunk_bytes() + rest);
        assert(concat_all(ws) =~= concat_all(tl));
    } else {
        let d = ws[0];
        let tl = ws.drop_first();
        let sz = d.len() as int;
        lemma_hex_digits_val(d.len() as nat);
        let tail = chunks_encoding(tl) + last_chunk_bytes() + rest;
        let after_line = d + crlf() + tail;
        let s = chunks_encoding(ws) + last_chunk_bytes() + rest;
        assert(s =~= hex_digits(d.len() as nat) + crlf() + after_line);
        assert(forall|i: int|
            0 <= i < hex_digits(d.len() as nat).len() ==> (#[trigger] hex_digits(
                d.len() as nat,
            )[i]) != 13);
        lemma_parse_crlf_line(hex_digits(d.len() as nat), after_line);
        let line = hex_digits(d.len() as nat);
        assert(hex_val(line) != 0);
        assert(after_line =~= d + (crlf() + tail));
        assert(after_line[sz] == 13 && after_line[sz + 1] == 10);
        assert(after_line.len() >= sz + 2);
        assert(after_line.take(sz) =~= d);
        assert(after_line.skip(sz + 2) =~= tail);
        lemma_chunked_body_roundtrip(tl, rest);
        assert(d + concat_all(tl) =~= concat_all(ws));
    }
}

/// A body-framing declaration: `Content-Length` or `Transfer-Encoding`,
/// compared case-insensitively.
pub open spec fn is_framing_name(n: Seq<u8>) -> bool {
    eq_ignore_case(n, content_length_name()) || eq_ignore_case(n, transfer_encoding_name())
}

/// Index of the first framing header in the list, or -1.
pub open spec fn find_framing(hs: Seq<(Seq<u8>, Seq<u8>)>) -> int
    decreases hs.len(),
{
    if hs.len() == 0 {
        -1
    } else if is_framing_name(hs[0].0) {
        0
    } else {
        let r = find_framing(hs.drop_first());
        if r < 0 {
            -1
        } else {
            r + 1
        }
    }
}

/// When position `k` holds the only framing header among the first `k + 1`,
/// the scan finds it.
pub proof fn lemma_find_framing_at(hs: Seq<(Seq<u8>, Seq<u8>)>, k: int)
    requires
        0 <= k < hs.len(),
        forall|j: int| 0 <= j < k ==> !is_framing_name((#[trigger] hs[j]).0),
        is_framing_name(hs[k].0),
    ensures
        find_framing(hs) == k,
    decreases k,
{
    if k == 0 {
    } else {
        assert(!is_framing_name(hs[0].0));
        lemma_find_framing_at(hs.drop_first(), k - 1);
    }
}

/// Parse a whole request: request line, headers, then the body under the
/// framing that the first framing header declares.  Returns the method, the
/// path, the version token, the headers (framing declaration included), the
/// body, and the bytes after the request.
pub open spec fn parse_request(s: Seq<u8>) -> Option<
    (Seq<u8>, Seq<u8>, Seq<u8>, Seq<(Seq<u8>, Seq<u8>)>, Seq<u8>, Seq<u8>),
> {
    match parse_request_line(s) {
        None => None,
        Some((m, p, v, r1)) => match parse_headers(r1) {
            None => None,
            Some((hs, r2)) => {
                let k = find_framing(hs);
                if k < 0 {
                    None
                } else if eq_ignore_case(hs[k].0, content_length_name()) {
                    let digits = hs[k].1;
                    if digits.len() > 0 && (forall|i: int|
                        0 <= i < digits.len() ==> is_dec_digit(#[trigger] digits[i])) {
                        let n = dec_val(digits) as int;
                        if r2.len() >= n {
                            Some((m, p, v, hs, r2.take(n), r2.skip(n)))
                        } else {
                            None
                        }
                    } else {
                        None
                    }
                } else {
                    if hs[k].1 == chunked_token() {
                        match parse_chunks(r2) {
                            None => None,
                            Some((body, r3)) => Some((m, p, v, hs, body, r3)),
                        }
                    } else {
                        None
                    }
                }
            },
        },
    }
}

/// The `Content-Length` name is a legal field name, the `Transfer-Encoding`
/// name too, and the two differ under case-insensitive comparison.
pub proof fn lemma_framing_names()
    ensures
        valid_header_name(content_length_name()),
        valid_header_name(transfer_encoding_name()),
        !eq_ignore_case(transfer_encoding_name(), content_length_name()),
        is_framing_name(content_length_name()),
        is_framing_name(transfer_encoding_name()),
{
    let cl = content_length_name();
    let te = transfer_encoding_name();
    assert forall|i: int| 0 <= i < cl.len() implies is_tchar(#[trigger] cl[i]) by {
        if i == 0 || i == 1 || i == 2 || i == 3 || i == 4 || i == 5 || i == 6 || i == 7 || i == 8
            || i == 9 || i == 10 || i == 11 || i == 12 || i == 13 {
        }
    }
    assert forall|i: int| 0 <= i < te.len() implies is_tchar(#[trigger] te[i]) by {
        if i == 0 || i == 1 || i == 2 || i == 3 || i == 4 || i == 5 || i == 6 || i == 7 || i == 8
            || i == 9 || i == 10 || i == 11 || i == 12 || i == 13 || i == 14 || i == 15 || i
            == 16 {
        }
    }
    assert(lower_bytes(te).len() == 17);
    assert(lower_bytes(cl).len() == 14);
}

/// The headers a request writes: the application headers with the one
/// framing declaration inserted at position `k`.
pub open spec fn with_framing_at(
    hs: Seq<(Seq<u8>, Seq<u8>)>,
    k: int,
    name: Seq<u8>,
    value: Seq<u8>,
) -> Seq<(Seq<u8>, Seq<u8>)> {
    hs.take(k) + seq![(name, value)] + hs.skip(k)
}

/// Application headers as `add_header` accepts them: legal names and
/// values, and never a framing declaration.
pub open spec fn wf_plain_headers(hs: Seq<(Seq<u8>, Seq<u8>)>) -> bool {
    wf_headers(hs) && forall|j: int| 0 <= j < hs.len() ==> !is_framing_name((#[trigger] hs[j]).0)
}

/// Round trip of a whole fixed-length request: the produced bytes parse
/// back to the same method, path, version, headers (with the
/// `Content-Length` declaration at its position among them) and body,
/// wherever among the headers the length was declared.
#[verifier::rlimit(50)]
pub proof fn lemma_request_roundtrip_fixed(
    m: Seq<u8>,
    p: Seq<u8>,
    v: Version,
    hs: Seq<(Seq<u8>, Seq<u8>)>,
    k: int,
    n: u64,
    body: Seq<u8>,
    rest: Seq<u8>,
)
    requires
        m.len() > 0,
        p.len() > 0,
        no_sp_cr_lf(m),
        no_sp_cr_lf(p),
        wf_plain_headers(hs),
        0 <= k <= hs.len(),
        body.len() == n,
    ensures
        ({
            let hs_all = with_framing_at(hs, k, content_length_name(), dec_digits(n as nat));
            parse_request(
                request_line_bytes(m, p, v.text()) + headers_bytes(hs_all) + crlf() + body + rest,
            ) == Some((m, p, v.text(), hs_all, body, rest))
        }),
{
    lemma_framing_names();
    lemma_dec_digits_val(n as nat);
    let hs_all = with_framing_at(hs, k, content_length_name(), dec_digits(n as nat));
    let digits = dec_digits(n as nat);
    assert(valid_header_value(digits));
    assert(wf_headers(hs_all));
    let s = request_line_bytes(m, p, v.text()) + headers_bytes(hs_all) + crlf() + body + rest;
    let r1 = headers_bytes(hs_all) + crlf() + (body + rest);
    assert(s =~= request_line_bytes(m, p, v.text()) + r1);
    lemma_request_line_roundtrip(m, p, v, r1);
    lemma_headers_roundtrip(hs_all, body + rest);
    assert(forall|j: int| 0 <= j < k ==> hs_all[j] == hs[j]);
    assert(hs_all[k] == (content_length_name(), dec_digits(n as nat)));
    lemma_find_framing_at(hs_all, k);
    assert((body + rest).len() >= n);
    assert((body + rest).take(n as int) =~= body);
    assert((body + rest).skip(n as int) =~= rest);
}

/// Round trip of a whole chunked request: the produced bytes parse back to
/// the same method, path, version and headers (with the chunked declaration
/// at its position among them), and the body parses back to the
/// concatenation of the written pieces, whatever their segmentation.
#[verifier::rlimit(50)]
pub proof fn lemma_request_roundtrip_chunked(
    m: Seq<u8>,
    p: Seq<u8>,
    v: Version,
    hs: Seq<(Seq<u8>, Seq<u8>)>,
    k: int,
    ws: Seq<Seq<u8>>,
    rest: Seq<u8>,
)
    requires
        m.len() > 0,
        p.len() > 0,
        no_sp_cr_lf(m),
        no_sp_cr_lf(p),
        wf_plain_headers(hs),
        0 <= k <= hs.len(),
    ensures
        ({
            let hs_all = with_framing_at(hs, k, transfer_encoding_name(), chunked_token());
            parse_request(
                request_line_bytes(m, p, v.text()) + headers_bytes(hs_all) + crlf()
                    + chunks_encoding(ws) + last_chunk_bytes() + rest,
            ) == Some((m, p, v.text(), hs_all, concat_all(ws), rest))
        }),
{
    lemma_framing_names();
    let hs_all = with_framing_at(hs, k, transfer_encoding_name(), chunked_token());
    assert(valid_header_value(chunked_token())) by {
        assert forall|i: int| 0 <= i < chunked_token().len() implies !crate::headers::forbidden_value_byte(
            #[trigger] chunked_token()[i],
        ) by {
            if i == 0 || i == 1 || i == 2 || i == 3 || i == 4 || i == 5 || i == 6 {
            }
        }
    }
    assert(wf_headers(hs_all));
    let body_bytes = chunks_encoding(ws) + last_chunk_bytes() + rest;
    let s = request_line_bytes(m, p, v.text()) + headers_bytes(hs_all) + crlf() + chunks_encoding(
        ws,
    ) + last_chunk_bytes() + rest;
    let r1 = headers_bytes(hs_all) + crlf() + body_bytes;
    assert(s =~= request_line_bytes(m, p, v.text()) + r1);
    lemma_request_line_roundtrip(m, p, v, r1);
    lemma_headers_roundtrip(hs_all, body_bytes);
    assert(forall|j: int| 0 <= j < k ==> hs_all[j] == hs[j]);
    assert(hs_all[k] == (transfer_encoding_name(), chunked_token()));
    lemma_find_framing_at(hs_all, k);
    lemma_chunked_body_roundtrip(ws, rest);
}

} // verus!
