//! Byte-level description of the HTTP/1.1 request wire format.
//!
//! The spec functions here are the single definition of what every encoding
//! operation appends to the output buffer; the executable writers are proved
//! to append exactly those bytes.

use vstd::prelude::*;

verus! {

/// The line terminator `\r\n`.
pub open spec fn crlf() -> Seq<u8> {
    seq![13u8, 10u8]
}

/// A single space.
pub open spec fn sp() -> Seq<u8> {
    seq![32u8]
}

/// The `: ` separator between a header name and its value.
pub open spec fn colon_sp() -> Seq<u8> {
    seq![58u8, 32u8]
}

/// Decimal digits of `n`, most significant first, no leading zeros
/// (a single `0` for zero).
pub open spec fn dec_digits(n: nat) -> Seq<u8>
    decreases n,
{
    if n < 10 {
        seq![(48 + n) as u8]
    } else {
        dec_digits(n / 10) + seq![(48 + n % 10) as u8]
    }
}

/// One lower-case hexadecimal digit for `d < 16`.
pub open spec fn hex_digit(d: nat) -> u8 {
    if d < 10 {
        (48 + d) as u8
    } else {
        (87 + d) as u8
    }
}

/// Hexadecimal digits of `n`, most significant first, lower case,
/// no leading zeros (a single `0` for zero).
pub open spec fn hex_digits(n: nat) -> Seq<u8>
    decreases n,
{
    if n < 16 {
        seq![hex_digit(n)]
    } else {
        hex_digits(n / 16) + seq![hex_digit(n % 16)]
    }
}

/// `METHOD SP PATH SP VERSION CRLF`.
pub open spec fn request_line_bytes(method: Seq<u8>, path: Seq<u8>, version: Seq<u8>) -> Seq<u8> {
    method + sp() + path + sp() + version + crlf()
}

/// `Name: value CRLF`.
pub open spec fn header_line_bytes(name: Seq<u8>, value: Seq<u8>) -> Seq<u8> {
    name + colon_sp() + value + crlf()
}

/// One chunk of a chunked body: `<hex-size>CRLF<bytes>CRLF`.
///
/// Empty input encodes to nothing: a zero-length chunk would terminate the
/// body, so the writer never emits one for data.
pub open spec fn chunk_bytes(data: Seq<u8>) -> Seq<u8> {
    if data.len() == 0 {
        Seq::empty()
    } else {
        hex_digits(data.len() as nat) + crlf() + data + crlf()
    }
}

/// The terminating zero-length chunk `0CRLF CRLF`.
pub open spec fn last_chunk_bytes() -> Seq<u8> {
    seq![48u8, 13u8, 10u8, 13u8, 10u8]
}

/// Append a slice to the output buffer.
pub fn push_bytes(buf: &mut Vec<u8>, data: &[u8])
    ensures
        final(buf)@ == old(buf)@ + data@,
{
    let mut i: usize = 0;
    while i < data.len()
        invariant
            i <= data@.len(),
            buf@ == old(buf)@ + data@.subrange(0, i as int),
        decreases data@.len() - i,
    {
        let b: u8 = data[i];
        buf.push(b);
        proof {
            assert(data@.subrange(0, i + 1) =~= data@.subrange(0, i as int) + seq![data@[i as int]]);
        }
        i = i + 1;
    }
    proof {
        assert(data@.subrange(0, data@.len() as int) =~= data@);
    }
}

/// Append the decimal representation of `n`.
pub fn push_dec(buf: &mut Vec<u8>, n: u64)
    ensures
        final(buf)@ == old(buf)@ + dec_digits(n as nat),
    decreases n,
{
    if n >= 10 {
        push_dec(buf, n / 10);
        buf.push(48 + (n % 10) as u8);
        proof {
            assert(buf@ =~= old(buf)@ + dec_digits(n as nat));
        }
    } else {
        buf.push(48 + n as u8);
        proof {
            assert(buf@ =~= old(buf)@ + dec_digits(n as nat));
        }
    }
}

/// Append the lower-case hexadecimal representation of `n`.
pub fn push_hex(buf: &mut Vec<u8>, n: usize)
    ensures
        final(buf)@ == old(buf)@ + hex_digits(n as nat),
    decreases n,
{
    if n >= 16 {
        push_hex(buf, n / 16);
        let d: usize = n % 16;
        if d < 10 {
            buf.push(48 + d as u8);
        } else {
            buf.push(87 + d as u8);
        }
        proof {
            assert(buf@ =~= old(buf)@ + hex_digits(n as nat));
        }
    } else {
        if n < 10 {
            buf.push(48 + n as u8);
        } else {
            buf.push(87 + n as u8);
        }
        proof {
            assert(buf@ =~= old(buf)@ + hex_digits(n as nat));
        }
    }
}

/// Append `\r\n`.
pub fn push_crlf(buf: &mut Vec<u8>)
    ensures
        final(buf)@ == old(buf)@ + crlf(),
{
    buf.push(13);
    buf.push(10);
    proof {
        assert(buf@ =~= old(buf)@ + crlf());
    }
}

} // verus!
