//! Header-field validation and the case-insensitive comparisons the encoder
//! needs: HEAD detection on the method and `close` detection on the value of
//! a `Connection` header.

use vstd::prelude::*;
use vstd::slice::slice_subrange;

verus! {

/// ASCII upper-case letters fold to lower case; everything else is unchanged.
pub open spec fn lower_byte(b: u8) -> u8 {
    if 65 <= b && b <= 90 {
        (b + 32) as u8
    } else {
        b
    }
}

pub open spec fn lower_bytes(s: Seq<u8>) -> Seq<u8> {
    s.map_values(|b: u8| lower_byte(b))
}

/// ASCII-case-insensitive equality of byte sequences.
pub open spec fn eq_ignore_case(a: Seq<u8>, b: Seq<u8>) -> bool {
    lower_bytes(a) == lower_bytes(b)
}

/// Case-insensitive comparison of two byte slices.
pub fn bytes_eq_ignore_case(a: &[u8], b: &[u8]) -> (r: bool)
    ensures
        r == eq_ignore_case(a@, b@),
{
    if a.len() != b.len() {
        proof {
            assert(lower_bytes(a@).len() == a@.len());
            assert(lower_bytes(b@).len() == b@.len());
        }
        return false;
    }
    let mut i: usize = 0;
    while i < a.len()
        invariant
            i <= a@.len(),
            a@.len() == b@.len(),
            forall|k: int| 0 <= k < i ==> lower_byte(a@[k]) == lower_byte(b@[k]),
        decreases a@.len() - i,
    {
        let mut x: u8 = a[i];
        let mut y: u8 = b[i];
        if 65 <= x && x <= 90 {
            x = x + 32;
        }
        if 65 <= y && y <= 90 {
            y = y + 32;
        }
        if x != y {
            proof {
                assert(lower_bytes(a@)[i as int] != lower_bytes(b@)[i as int]);
            }
            return false;
        }
        i = i + 1;
    }
    proof {
        assert(lower_bytes(a@) =~= lower_bytes(b@));
    }
    true
}

/// A token character of an HTTP field name: letters, digits, and
/// `! # $ % & ' * + - . ^ _ ` | ~`.
pub open spec fn is_tchar(b: u8) -> bool {
    (48 <= b && b <= 57) || (65 <= b && b <= 90) || (97 <= b && b <= 122) || b == 33 || (35 <= b
        && b <= 39) || b == 42 || b == 43 || b == 45 || b == 46 || b == 94 || b == 95 || b == 96
        || b == 124 || b == 126
}

/// A legal field name: a non-empty run of token characters.
pub open spec fn valid_header_name(n: Seq<u8>) -> bool {
    n.len() > 0 && forall|i: int| 0 <= i < n.len() ==> is_tchar(#[trigger] n[i])
}

/// Bytes that may never appear in a field value: CR, LF and NUL.
pub open spec fn forbidden_value_byte(b: u8) -> bool {
    b == 13 || b == 10 || b == 0
}

pub open spec fn valid_header_value(v: Seq<u8>) -> bool {
    forall|i: int| 0 <= i < v.len() ==> !forbidden_value_byte(#[trigger] v[i])
}

pub fn check_header_name(n: &[u8]) -> (r: bool)
    ensures
        r == valid_header_name(n@),
{
    if n.len() == 0 {
        return false;
    }
    let mut i: usize = 0;
    while i < n.len()
        invariant
            i <= n@.len(),
            forall|k: int| 0 <= k < i ==> is_tchar(#[trigger] n@[k]),
        decreases n@.len() - i,
    {
        let b: u8 = n[i];
        let ok: bool = (48 <= b && b <= 57) || (65 <= b && b <= 90) || (97 <= b && b <= 122) || b
            == 33 || (35 <= b && b <= 39) || b == 42 || b == 43 || b == 45 || b == 46 || b == 94
            || b == 95 || b == 96 || b == 124 || b == 126;
        if !ok {
            return false;
        }
        i = i + 1;
    }
    true
}

pub fn check_header_value(v: &[u8]) -> (r: bool)
    ensures
        r == valid_header_value(v@),
{
    let mut i: usize = 0;
    while i < v.len()
        invariant
            i <= v@.len(),
            forall|k: int| 0 <= k < i ==> !forbidden_value_byte(#[trigger] v@[k]),
        decreases v@.len() - i,
    {
        let b: u8 = v[i];
        if b == 13 || b == 10 || b == 0 {
            return false;
        }
        i = i + 1;
    }
    true
}

/// Linear white space inside a header value: space and horizontal tab.
pub open spec fn is_lws(b: u8) -> bool {
    b == 32 || b == 9
}

pub open spec fn trim_front(s: Seq<u8>) -> Seq<u8>
    decreases s.len(),
{
    if s.len() > 0 && is_lws(s[0]) {
        trim_front(s.drop_first())
    } else {
        s
    }
}

pub open spec fn trim_back(s: Seq<u8>) -> Seq<u8>
    decreases s.len(),
{
    if s.len() > 0 && is_lws(s[s.len() - 1]) {
        trim_back(s.drop_last())
    } else {
        s
    }
}

pub open spec fn trim_lws(s: Seq<u8>) -> Seq<u8> {
    trim_back(trim_front(s))
}

/// The bytes of `close`.
pub open spec fn close_token() -> Seq<u8> {
    seq![99u8, 108u8, 111u8, 115u8, 101u8]
}

/// The bytes of `Connection`.
pub open spec fn connection_name() -> Seq<u8> {
    seq![67u8, 111u8, 110u8, 110u8, 101u8, 99u8, 116u8, 105u8, 111u8, 110u8]
}

/// The bytes of `Content-Length`.
pub open spec fn content_length_name() -> Seq<u8> {
    seq![67u8, 111u8, 110u8, 116u8, 101u8, 110u8, 116u8, 45u8, 76u8, 101u8, 110u8, 103u8, 116u8, 104u8]
}

/// The bytes of `Transfer-Encoding`.
pub open spec fn transfer_encoding_name() -> Seq<u8> {
    seq![84u8, 114u8, 97u8, 110u8, 115u8, 102u8, 101u8, 114u8, 45u8, 69u8, 110u8, 99u8, 111u8,
        100u8, 105u8, 110u8, 103u8]
}

/// The bytes of `chunked`.
pub open spec fn chunked_token() -> Seq<u8> {
    seq![99u8, 104u8, 117u8, 110u8, 107u8, 101u8, 100u8]
}

/// The bytes of `HEAD`.
pub open spec fn head_method() -> Seq<u8> {
    seq![72u8, 69u8, 65u8, 68u8]
}

/// A comma-separated element of a `Connection` value matches `close` when it
/// equals `close` case-insensitively after trimming spaces and tabs.
pub open spec fn token_is_close(tok: Seq<u8>) -> bool {
    eq_ignore_case(trim_lws(tok), close_token())
}

/// Scan of a `Connection` value: `start` opens the current comma-separated
/// element, `i` is the scan position, `found` accumulates matches so far.
pub open spec fn is_close_from(v: Seq<u8>, start: int, i: int, found: bool) -> bool
    recommends
        0 <= start <= i <= v.len(),
    decreases v.len() - i,
{
    if i >= v.len() {
        found || token_is_close(v.subrange(start, v.len() as int))
    } else if v[i] == 44 {
        is_close_from(v, i + 1, i + 1, found || token_is_close(v.subrange(start, i)))
    } else {
        is_close_from(v, start, i + 1, found)
    }
}

/// A `Connection` value requests a close when one of its comma-separated
/// elements, trimmed of spaces and tabs, equals `close` case-insensitively.
pub open spec fn is_close_value(v: Seq<u8>) -> bool {
    is_close_from(v, 0, 0, false)
}

/// Whether the element `v[start..end]`, trimmed, equals `close`
/// case-insensitively.
pub fn segment_is_close(v: &[u8], start: usize, end: usize) -> (r: bool)
    requires
        start <= end <= v@.len(),
    ensures
        r == token_is_close(v@.subrange(start as int, end as int)),
{
    let mut i: usize = start;
    let mut j: usize = end;
    while i < j && (v[i] == 32 || v[i] == 9)
        invariant
            start <= i <= j <= v@.len(),
            j == end,
            trim_front(v@.subrange(i as int, end as int)) == trim_front(
                v@.subrange(start as int, end as int),
            ),
        decreases j - i,
    {
        proof {
            assert(v@.subrange(i as int, end as int).drop_first() =~= v@.subrange(
                i + 1,
                end as int,
            ));
        }
        i = i + 1;
    }
    proof {
        assert(trim_front(v@.subrange(i as int, end as int)) == v@.subrange(i as int, end as int));
    }
    while j > i && (v[j - 1] == 32 || v[j - 1] == 9)
        invariant
            start <= i <= j <= v@.len(),
            trim_back(v@.subrange(i as int, j as int)) == trim_lws(
                v@.subrange(start as int, end as int),
            ),
        decreases j - i,
    {
        proof {
            assert(v@.subrange(i as int, j as int).drop_last() =~= v@.subrange(i as int, j - 1));
        }
        j = j - 1;
    }
    proof {
        assert(trim_back(v@.subrange(i as int, j as int)) == v@.subrange(i as int, j as int));
        assert(trim_lws(v@.subrange(start as int, end as int)) == v@.subrange(i as int, j as int));
    }
    if j - i != 5 {
        proof {
            assert(lower_bytes(v@.subrange(i as int, j as int)).len() != lower_bytes(
                close_token(),
            ).len());
        }
        return false;
    }
    let lit: [u8; 5] = [99u8, 108u8, 111u8, 115u8, 101u8];
    let r = bytes_eq_ignore_case(slice_subrange(v, i, j), lit.as_slice());
    proof {
        assert(lit@ =~= close_token());
    }
    r
}

/// Whether a `Connection` header value requests closing the connection.
pub fn is_close(value: &[u8]) -> (r: bool)
    ensures
        r == is_close_value(value@),
{
    let mut seg_start: usize = 0;
    let mut i: usize = 0;
    let mut found: bool = false;
    while i < value.len()
        invariant
            seg_start <= i <= value@.len(),
            is_close_from(value@, seg_start as int, i as int, found) == is_close_value(value@),
        decreases value@.len() - i,
    {
        let b: u8 = value[i];
        if b == 44 {
            if segment_is_close(value, seg_start, i) {
                found = true;
            }
            seg_start = i + 1;
        }
        i = i + 1;
    }
    if segment_is_close(value, seg_start, value.len()) {
        found = true;
    }
    found
}

} // verus!
