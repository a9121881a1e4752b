//! The header/body state machine of one outgoing request.
//!
//! Every operation is legal only in a specific phase (request line, headers,
//! body, done); the `requires` clauses make an out-of-order call a
//! verification error at the call site instead of a runtime panic.  Each
//! operation's effect on the output buffer and on the state is given by a
//! spec transition function, so that laws about call sequences can be stated
//! and proved over those functions alone.

use vstd::prelude::*;
use vstd::string::StringSliceAdditionalSpecFns;
use crate::headers::{
    check_header_name, check_header_value, bytes_eq_ignore_case, eq_ignore_case,
    valid_header_name, valid_header_value, content_length_name, transfer_encoding_name,
    chunked_token,
};
use crate::wire::{
    crlf, header_line_bytes, request_line_bytes, chunk_bytes, last_chunk_bytes, dec_digits,
    push_bytes, push_dec, push_hex, push_crlf,
};

verus! {

/// A recoverable header-validation failure, returned as a value so that a
/// component forwarding untrusted headers can reject one header instead of
/// aborting the connection.
#[derive(Clone, Copy, Debug, PartialEq, Eq, Structural)]
pub enum HeaderError {
    /// The field name is empty or holds a byte that is not a token character.
    InvalidHeaderName,
    /// The field value holds CR, LF or NUL.
    InvalidHeaderValue,
    /// `Content-Length` or `Transfer-Encoding` was passed to `add_header`;
    /// body framing may only be declared through `add_length` or
    /// `add_chunked`.
    BodyLengthHeader,
    /// A body-framing strategy was already declared.
    DuplicateBodyLength,
}

/// The body-framing strategy of the message.
#[derive(Clone, Copy, Debug, PartialEq, Eq, Structural)]
pub enum BodyKind {
    /// No strategy declared yet (and, once headers are closed, no body).
    Unset,
    /// `Content-Length: n`: exactly `n` raw body bytes.
    Fixed(u64),
    /// `Transfer-Encoding: chunked`.
    Chunked,
}

/// The phase of one request being written.  Transitions are strictly
/// forward: `RequestStart` to `Headers` to `Body` to `Done`.
#[derive(Clone, Copy, Debug, PartialEq, Eq, Structural)]
pub enum MessageState {
    /// Nothing written yet.
    RequestStart,
    /// The request line is written; header lines may follow.
    Headers { body: BodyKind },
    /// Headers are closed; body bytes may follow.  `written` counts the raw
    /// body bytes appended so far under a `Fixed` strategy and stays 0
    /// otherwise.
    Body { body: BodyKind, written: u64 },
    /// The terminal bytes are written; nothing may follow.
    Done,
}

/// The HTTP version token of the request line, serialized verbatim.
#[derive(Clone, Copy, Debug, PartialEq, Eq, Structural)]
pub enum Version {
    Http10,
    Http11,
}

impl Version {
    /// The bytes of the version token: `HTTP/1.0` or `HTTP/1.1`.
    pub open spec fn text(self) -> Seq<u8> {
        match self {
            Version::Http10 => seq![72u8, 84u8, 84u8, 80u8, 47u8, 49u8, 46u8, 48u8],
            Version::Http11 => seq![72u8, 84u8, 84u8, 80u8, 47u8, 49u8, 46u8, 49u8],
        }
    }

    /// Append the version token to the buffer.
    pub fn write(self, buf: &mut Vec<u8>)
        ensures
            final(buf)@ == old(buf)@ + self.text(),
    {
        match self {
            Version::Http10 => {
                let lit: [u8; 8] = [72u8, 84u8, 84u8, 80u8, 47u8, 49u8, 46u8, 48u8];
                push_bytes(buf, lit.as_slice());
                proof {
                    assert(lit@ =~= self.text());
                }
            },
            Version::Http11 => {
                let lit: [u8; 8] = [72u8, 84u8, 84u8, 80u8, 47u8, 49u8, 46u8, 49u8];
                push_bytes(buf, lit.as_slice());
                proof {
                    assert(lit@ =~= self.text());
                }
            },
        }
    }
}

/// The `Content-Length: n` header line.
pub open spec fn content_length_line(n: u64) -> Seq<u8> {
    header_line_bytes(content_length_name(), dec_digits(n as nat))
}

/// The `Transfer-Encoding: chunked` header line.
pub open spec fn transfer_encoding_line() -> Seq<u8> {
    header_line_bytes(transfer_encoding_name(), chunked_token())
}

/// Effect of `add_header`: the new state, the bytes appended, and the result.
pub open spec fn spec_add_header(m: MessageState, name: Seq<u8>, value: Seq<u8>) -> (
    MessageState,
    Seq<u8>,
    Result<(), HeaderError>,
) {
    if !valid_header_name(name) {
        (m, Seq::empty(), Err(HeaderError::InvalidHeaderName))
    } else if !valid_header_value(value) {
        (m, Seq::empty(), Err(HeaderError::InvalidHeaderValue))
    } else if eq_ignore_case(name, content_length_name()) || eq_ignore_case(
        name,
        transfer_encoding_name(),
    ) {
        (m, Seq::empty(), Err(HeaderError::BodyLengthHeader))
    } else {
        (m, header_line_bytes(name, value), Ok(()))
    }
}

/// Effect of `add_length`.
pub open spec fn spec_add_length(m: MessageState, n: u64) -> (
    MessageState,
    Seq<u8>,
    Result<(), HeaderError>,
) {
    match m {
        MessageState::Headers { body: BodyKind::Unset } => (
            MessageState::Headers { body: BodyKind::Fixed(n) },
            content_length_line(n),
            Ok(()),
        ),
        _ => (m, Seq::empty(), Err(HeaderError::DuplicateBodyLength)),
    }
}

/// Effect of `add_chunked`.
pub open spec fn spec_add_chunked(m: MessageState) -> (
    MessageState,
    Seq<u8>,
    Result<(), HeaderError>,
) {
    match m {
        MessageState::Headers { body: BodyKind::Unset } => (
            MessageState::Headers { body: BodyKind::Chunked },
            transfer_encoding_line(),
            Ok(()),
        ),
        _ => (m, Seq::empty(), Err(HeaderError::DuplicateBodyLength)),
    }
}

/// Effect of `done_headers`.
pub open spec fn spec_done_headers(m: MessageState) -> (MessageState, Seq<u8>)
    recommends
        m is Headers,
{
    match m {
        MessageState::Headers { body } => (MessageState::Body { body, written: 0 }, crlf()),
        _ => (m, Seq::empty()),
    }
}

/// Whether a `write_body` call with `len` bytes is legal in state `m`:
/// the body phase must be open, a framing strategy must have been chosen,
/// and under a fixed length the declared total may not be exceeded.
pub open spec fn write_body_allowed(m: MessageState, len: nat) -> bool {
    match m {
        MessageState::Body { body: BodyKind::Fixed(n), written } => written + len <= n,
        MessageState::Body { body: BodyKind::Chunked, written } => true,
        _ => false,
    }
}

/// Effect of `write_body`.
pub open spec fn spec_write_body(m: MessageState, data: Seq<u8>) -> (MessageState, Seq<u8>)
    recommends
        write_body_allowed(m, data.len()),
{
    match m {
        MessageState::Body { body: BodyKind::Fixed(n), written } => (
            MessageState::Body { body: BodyKind::Fixed(n), written: (written + data.len()) as u64 },
            data,
        ),
        MessageState::Body { body: BodyKind::Chunked, written } => (
            MessageState::Body { body: BodyKind::Chunked, written },
            chunk_bytes(data),
        ),
        _ => (m, Seq::empty()),
    }
}

/// Whether `done` is legal in state `m`: the body phase must be open and a
/// fixed declared length must have been written in full.
pub open spec fn done_allowed(m: MessageState) -> bool {
    match m {
        MessageState::Body { body: BodyKind::Fixed(n), written } => written == n,
        MessageState::Body { body: _, written: _ } => true,
        _ => false,
    }
}

/// Effect of `done`: a chunked body is closed by exactly one terminating
/// zero-length chunk; other strategies append nothing.
pub open spec fn spec_done(m: MessageState) -> (MessageState, Seq<u8>)
    recommends
        done_allowed(m),
{
    match m {
        MessageState::Body { body: BodyKind::Chunked, written: _ } => (
            MessageState::Done,
            last_chunk_bytes(),
        ),
        _ => (MessageState::Done, Seq::empty()),
    }
}

impl MessageState {
    /// Serialize `METHOD SP PATH SP VERSION CRLF` and open the headers.
    ///
    /// Legal only in the initial state, so it cannot be called twice.
    pub fn request_line(&mut self, buf: &mut Vec<u8>, method: &str, path: &str, version: Version)
        requires
            *old(self) is RequestStart,
        ensures
            *final(self) == (MessageState::Headers { body: BodyKind::Unset }),
            final(buf)@ == old(buf)@ + request_line_bytes(
                method.spec_bytes(),
                path.spec_bytes(),
                version.text(),
            ),
    {
        push_bytes(buf, method.as_bytes());
        buf.push(32);
        push_bytes(buf, path.as_bytes());
        buf.push(32);
        version.write(buf);
        push_crlf(buf);
        *self = MessageState::Headers { body: BodyKind::Unset };
        proof {
            assert(buf@ =~= old(buf)@ + request_line_bytes(
                method.spec_bytes(),
                path.spec_bytes(),
                version.text(),
            ));
        }
    }

    /// Validate one header and serialize `name: value CRLF`.
    ///
    /// On rejection nothing is appended and the state does not change.
    pub fn add_header(&mut self, buf: &mut Vec<u8>, name: &str, value: &[u8]) -> (r: Result<
        (),
        HeaderError,
    >)
        requires
            *old(self) is Headers,
        ensures
            ({
                let (m2, delta, res) = spec_add_header(*old(self), name.spec_bytes(), value@);
                *final(self) == m2 && final(buf)@ == old(buf)@ + delta && r == res
            }),
    {
        proof {
            assert(old(buf)@ + Seq::<u8>::empty() =~= old(buf)@);
        }
        let nb = name.as_bytes();
        if !check_header_name(nb) {
            return Err(HeaderError::InvalidHeaderName);
        }
        if !check_header_value(value) {
            return Err(HeaderError::InvalidHeaderValue);
        }
        let cl_lit: [u8; 14] = [
            67u8, 111u8, 110u8, 116u8, 101u8, 110u8, 116u8, 45u8, 76u8, 101u8, 110u8, 103u8,
            116u8, 104u8,
        ];
        let te_lit: [u8; 17] = [
            84u8, 114u8, 97u8, 110u8, 115u8, 102u8, 101u8, 114u8, 45u8, 69u8, 110u8, 99u8, 111u8,
            100u8, 105u8, 110u8, 103u8,
        ];
        proof {
            assert(cl_lit@ =~= content_length_name());
            assert(te_lit@ =~= transfer_encoding_name());
        }
        if bytes_eq_ignore_case(nb, cl_lit.as_slice()) || bytes_eq_ignore_case(
            nb,
            te_lit.as_slice(),
        ) {
            return Err(HeaderError::BodyLengthHeader);
        }
        push_bytes(buf, nb);
        buf.push(58);
        buf.push(32);
        push_bytes(buf, value);
        push_crlf(buf);
        proof {
            assert(buf@ =~= old(buf)@ + header_line_bytes(name.spec_bytes(), value@));
        }
        Ok(())
    }

    /// Declare a fixed body length and serialize `Content-Length: n CRLF`.
    ///
    /// Errs with `DuplicateBodyLength`, appending nothing, if a framing
    /// strategy was already declared.
    pub fn add_length(&mut self, buf: &mut Vec<u8>, n: u64) -> (r: Result<(), HeaderError>)
        requires
            *old(self) is Headers,
        ensures
            ({
                let (m2, delta, res) = spec_add_length(*old(self), n);
                *final(self) == m2 && final(buf)@ == old(buf)@ + delta && r == res
            }),
    {
        match *self {
            MessageState::Headers { body: BodyKind::Unset } => {
                let cl_lit: [u8; 14] = [
                    67u8, 111u8, 110u8, 116u8, 101u8, 110u8, 116u8, 45u8, 76u8, 101u8, 110u8,
                    103u8, 116u8, 104u8,
                ];
                proof {
                    assert(cl_lit@ =~= content_length_name());
                }
                push_bytes(buf, cl_lit.as_slice());
                buf.push(58);
                buf.push(32);
                push_dec(buf, n);
                push_crlf(buf);
                *self = MessageState::Headers { body: BodyKind::Fixed(n) };
                proof {
                    assert(buf@ =~= old(buf)@ + content_length_line(n));
                }
                Ok(())
            },
            _ => {
                proof {
                    assert(old(buf)@ + Seq::<u8>::empty() =~= old(buf)@);
                }
                Err(HeaderError::DuplicateBodyLength)
            },
        }
    }

    /// Declare a chunked body and serialize `Transfer-Encoding: chunked CRLF`.
    ///
    /// Errs with `DuplicateBodyLength`, appending nothing, if a framing
    /// strategy was already declared.
    pub fn add_chunked(&mut self, buf: &mut Vec<u8>) -> (r: Result<(), HeaderError>)
        requires
            *old(self) is Headers,
        ensures
            ({
                let (m2, delta, res) = spec_add_chunked(*old(self));
                *final(self) == m2 && final(buf)@ == old(buf)@ + delta && r == res
            }),
    {
        match *self {
            MessageState::Headers { body: BodyKind::Unset } => {
                let te_lit: [u8; 17] = [
                    84u8, 114u8, 97u8, 110u8, 115u8, 102u8, 101u8, 114u8, 45u8, 69u8, 110u8, 99u8,
                    111u8, 100u8, 105u8, 110u8, 103u8,
                ];
                let ck_lit: [u8; 7] = [99u8, 104u8, 117u8, 110u8, 107u8, 101u8, 100u8];
                proof {
                    assert(te_lit@ =~= transfer_encoding_name());
                    assert(ck_lit@ =~= chunked_token());
                }
                push_bytes(buf, te_lit.as_slice());
                buf.push(58);
                buf.push(32);
                push_bytes(buf, ck_lit.as_slice());
                push_crlf(buf);
                *self = MessageState::Headers { body: BodyKind::Chunked };
                proof {
                    assert(buf@ =~= old(buf)@ + transfer_encoding_line());
                }
                Ok(())
            },
            _ => {
                proof {
                    assert(old(buf)@ + Seq::<u8>::empty() =~= old(buf)@);
                }
                Err(HeaderError::DuplicateBodyLength)
            },
        }
    }

    /// Serialize the blank line that closes the headers and move to the body
    /// phase.  The returned flag says whether a body is semantically
    /// permitted; for requests it is always true.
    pub fn done_headers(&mut self, buf: &mut Vec<u8>) -> (r: Result<bool, HeaderError>)
        requires
            *old(self) is Headers,
        ensures
            *final(self) == spec_done_headers(*old(self)).0,
            final(buf)@ == old(buf)@ + spec_done_headers(*old(self)).1,
            r == Ok::<bool, HeaderError>(true),
    {
        let body = match *self {
            MessageState::Headers { body } => body,
            _ => BodyKind::Unset,
        };
        push_crlf(buf);
        *self = MessageState::Body { body, written: 0 };
        Ok(true)
    }

    /// Append one piece of the body: raw bytes under a fixed length, one
    /// length-prefixed chunk under chunked encoding (empty input appends
    /// nothing there, since a zero-length chunk would terminate the body).
    ///
    /// Illegal before headers are closed, with no declared strategy, and
    /// whenever the cumulative size would exceed a fixed declared length:
    /// the excess byte is never appended.
    pub fn write_body(&mut self, buf: &mut Vec<u8>, data: &[u8])
        requires
            write_body_allowed(*old(self), data@.len()),
        ensures
            *final(self) == spec_write_body(*old(self), data@).0,
            final(buf)@ == old(buf)@ + spec_write_body(*old(self), data@).1,
    {
        match *self {
            MessageState::Body { body: BodyKind::Fixed(n), written } => {
                push_bytes(buf, data);
                *self = MessageState::Body {
                    body: BodyKind::Fixed(n),
                    written: written + data.len() as u64,
                };
            },
            MessageState::Body { body: BodyKind::Chunked, written } => {
                if data.len() > 0 {
                    push_hex(buf, data.len());
                    push_crlf(buf);
                    push_bytes(buf, data);
                    push_crlf(buf);
                    proof {
                        assert(buf@ =~= old(buf)@ + chunk_bytes(data@));
                    }
                } else {
                    proof {
                        assert(old(buf)@ + chunk_bytes(data@) =~= old(buf)@);
                    }
                }
            },
            _ => {
                proof {
                    assert(false);
                }
            },
        }
    }

    /// Close the message: under chunked encoding append exactly one
    /// terminating zero-length chunk, otherwise nothing, and move to `Done`.
    ///
    /// Illegal unless the body phase is open and a fixed declared length has
    /// been written in full; illegal a second time.
    pub fn done(&mut self, buf: &mut Vec<u8>)
        requires
            done_allowed(*old(self)),
        ensures
            *final(self) == spec_done(*old(self)).0,
            final(buf)@ == old(buf)@ + spec_done(*old(self)).1,
    {
        match *self {
            MessageState::Body { body: BodyKind::Chunked, written: _ } => {
                let lit: [u8; 5] = [48u8, 13u8, 10u8, 13u8, 10u8];
                push_bytes(buf, lit.as_slice());
                proof {
                    assert(lit@ =~= last_chunk_bytes());
                }
            },
            _ => {
                proof {
                    assert(old(buf)@ + Seq::<u8>::empty() =~= old(buf)@);
                }
            },
        }
        *self = MessageState::Done;
    }
}

} // verus!
