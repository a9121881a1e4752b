//! The request encoder: the public writing surface of one request on a
//! shared connection.
//!
//! It combines the message state machine, the connection's append-only
//! output buffer (lent to the encoder, drained from the front by the
//! connection's I/O driver through `buffered` and `consume`), and the two
//! shared pipeline signals that the response-reading side observes: the
//! in-flight request kind, written exactly once per request at request-line
//! time, and the monotonic connection-close flag.
//!
//! The two signals live in atomics shared with the response reader.  Nothing
//! is assumed about concurrent readers; the ghost fields `published` and
//! `close_sent` record what this writer — the single writer of both signals —
//! has stored, and every contract speaks of that record.

use vstd::prelude::*;
use vstd::string::StringSliceAdditionalSpecFns;
use std::sync::Arc;
use std::sync::atomic::{AtomicBool, AtomicUsize, Ordering};
use crate::headers::{
    bytes_eq_ignore_case, connection_name, eq_ignore_case, head_method, is_close, is_close_value,
};
use crate::message::{
    done_allowed, spec_add_chunked, spec_add_header, spec_add_length, spec_done,
    spec_done_headers, spec_write_body, write_body_allowed, BodyKind, HeaderError, MessageState,
    Version,
};
use crate::wire::request_line_bytes;

verus! {

/// The in-flight request kind published for the response reader: it tells
/// the reader whether the matching response must be parsed as bodiless.
#[derive(Clone, Copy, Debug, PartialEq, Eq, Structural)]
pub enum RequestState {
    /// No request line written yet on this slot.
    Empty,
    /// A HEAD request is in flight: the response carries no body.
    StartedHead,
    /// Any other method is in flight.
    StartedNormal,
}

/// The value stored in the shared atomic for each kind.
pub open spec fn spec_request_state_code(s: RequestState) -> usize {
    match s {
        RequestState::Empty => 0,
        RequestState::StartedHead => 1,
        RequestState::StartedNormal => 2,
    }
}

pub fn request_state_code(s: RequestState) -> (r: usize)
    ensures
        r == spec_request_state_code(s),
{
    match s {
        RequestState::Empty => 0,
        RequestState::StartedHead => 1,
        RequestState::StartedNormal => 2,
    }
}

/// HEAD, compared case-insensitively, is published as `StartedHead`; every
/// other method as `StartedNormal`.
pub open spec fn classify_method(m: Seq<u8>) -> RequestState {
    if eq_ignore_case(m, head_method()) {
        RequestState::StartedHead
    } else {
        RequestState::StartedNormal
    }
}

/// The request writer of one connection slot.
///
/// Methods keep the written bytes consistent with the protocol: the state
/// machine's preconditions surface as `requires`, so an out-of-order call is
/// a verification error at the caller.
pub struct Encoder {
    message: MessageState,
    buf: Vec<u8>,
    state: Arc<AtomicUsize>,
    close_signal: Arc<AtomicBool>,
    published: Ghost<Option<RequestState>>,
    close_sent: Ghost<bool>,
}

/// The terminal handle returned by `Encoder::done`.  It has no write
/// operations, so nothing can follow a finished request, and taking it is
/// the only way to end one: at most one writer exists by construction.
pub struct EncoderDone {
    buf: Vec<u8>,
}

impl EncoderDone {
    pub closed spec fn bytes(self) -> Seq<u8> {
        self.buf@
    }
}

/// Hand the output buffer back to the connection.
pub fn get_inner(e: EncoderDone) -> (r: Vec<u8>)
    ensures
        r@ == e.bytes(),
{
    e.buf
}

/// Make an encoder for one request on the connection's buffer (which may
/// still hold bytes of an earlier pipelined request) and its two shared
/// signal cells.
pub fn new(io: Vec<u8>, state: Arc<AtomicUsize>, close_signal: Arc<AtomicBool>) -> (r: Encoder)
    ensures
        r.wf(),
        r.msg() is RequestStart,
        r.bytes() == io@,
        r.published() is None,
        !r.close_sent(),
{
    Encoder {
        message: MessageState::RequestStart,
        buf: io,
        state: state,
        close_signal: close_signal,
        published: Ghost(None),
        close_sent: Ghost(false),
    }
}

impl Encoder {
    /// All bytes appended so far and not yet drained by the I/O driver.
    pub closed spec fn bytes(self) -> Seq<u8> {
        self.buf@
    }

    /// The phase of the message being written.
    pub closed spec fn msg(self) -> MessageState {
        self.message
    }

    /// The request kind this writer has stored into the shared kind signal,
    /// `None` while no request line was written.
    pub closed spec fn published(self) -> Option<RequestState> {
        self.published@
    }

    /// Whether this writer has stored `true` into the shared close flag.
    /// The flag is monotonic: no operation ever stores `false`.
    pub closed spec fn close_sent(self) -> bool {
        self.close_sent@
    }

    /// The kind signal is written exactly when the request line is: before
    /// it, nothing was published; from then on, exactly one value was.
    pub open spec fn wf(self) -> bool {
        self.msg() is RequestStart <==> self.published() is None
    }

    /// Write `METHOD SP PATH SP VERSION CRLF` and publish the request kind
    /// (HEAD in any letter case, or normal) exactly once.
    pub fn request_line(&mut self, method: &str, path: &str, version: Version)
        requires
            old(self).wf(),
            old(self).msg() is RequestStart,
        ensures
            final(self).wf(),
            final(self).msg() == (MessageState::Headers { body: BodyKind::Unset }),
            final(self).bytes() == old(self).bytes() + request_line_bytes(
                method.spec_bytes(),
                path.spec_bytes(),
                version.text(),
            ),
            final(self).published() == Some(classify_method(method.spec_bytes())),
            final(self).close_sent() == old(self).close_sent(),
    {
        self.message.request_line(&mut self.buf, method, path, version);
        let head_lit: [u8; 4] = [72u8, 69u8, 65u8, 68u8];
        proof {
            assert(head_lit@ =~= head_method());
        }
        let kind = if bytes_eq_ignore_case(method.as_bytes(), head_lit.as_slice()) {
            RequestState::StartedHead
        } else {
            RequestState::StartedNormal
        };
        let code = request_state_code(kind);
        self.state.swap(code, Ordering::SeqCst);
        self.published = Ghost(Some(kind));
    }

    /// Validate and write one header line.  A `Connection` header whose
    /// value requests a close raises the shared close flag (never lowers
    /// it), whether or not the header is then rejected.
    pub fn add_header(&mut self, name: &str, value: &[u8]) -> (r: Result<(), HeaderError>)
        requires
            old(self).wf(),
            old(self).msg() is Headers,
        ensures
            final(self).wf(),
            ({
                let (m2, delta, res) = spec_add_header(old(self).msg(), name.spec_bytes(), value@);
                final(self).msg() == m2 && final(self).bytes() == old(self).bytes() + delta && r
                    == res
            }),
            final(self).published() == old(self).published(),
            final(self).close_sent() == (old(self).close_sent() || (eq_ignore_case(
                name.spec_bytes(),
                connection_name(),
            ) && is_close_value(value@))),
    {
        let conn_lit: [u8; 10] = [67u8, 111u8, 110u8, 110u8, 101u8, 99u8, 116u8, 105u8, 111u8,
            110u8];
        proof {
            assert(conn_lit@ =~= connection_name());
        }
        if bytes_eq_ignore_case(name.as_bytes(), conn_lit.as_slice()) && is_close(value) {
            self.close_signal.store(true, Ordering::SeqCst);
            self.close_sent = Ghost(true);
        }
        self.message.add_header(&mut self.buf, name, value)
    }

    /// Declare a fixed body length; `DuplicateBodyLength` if any framing
    /// strategy was already declared.
    pub fn add_length(&mut self, n: u64) -> (r: Result<(), HeaderError>)
        requires
            old(self).wf(),
            old(self).msg() is Headers,
        ensures
            final(self).wf(),
            ({
                let (m2, delta, res) = spec_add_length(old(self).msg(), n);
                final(self).msg() == m2 && final(self).bytes() == old(self).bytes() + delta && r
                    == res
            }),
            final(self).published() == old(self).published(),
            final(self).close_sent() == old(self).close_sent(),
    {
        self.message.add_length(&mut self.buf, n)
    }

    /// Declare a chunked body; `DuplicateBodyLength` if any framing strategy
    /// was already declared.
    pub fn add_chunked(&mut self) -> (r: Result<(), HeaderError>)
        requires
            old(self).wf(),
            old(self).msg() is Headers,
        ensures
            final(self).wf(),
            ({
                let (m2, delta, res) = spec_add_chunked(old(self).msg());
                final(self).msg() == m2 && final(self).bytes() == old(self).bytes() + delta && r
                    == res
            }),
            final(self).published() == old(self).published(),
            final(self).close_sent() == old(self).close_sent(),
    {
        self.message.add_chunked(&mut self.buf)
    }

    /// Close the headers with the blank line and open the body phase.
    pub fn done_headers(&mut self) -> (r: Result<(), HeaderError>)
        requires
            old(self).wf(),
            old(self).msg() is Headers,
        ensures
            final(self).wf(),
            final(self).msg() == spec_done_headers(old(self).msg()).0,
            final(self).bytes() == old(self).bytes() + spec_done_headers(old(self).msg()).1,
            r is Ok,
            final(self).published() == old(self).published(),
            final(self).close_sent() == old(self).close_sent(),
    {
        match self.message.done_headers(&mut self.buf) {
            Ok(_) => Ok(()),
            Err(e) => Err(e),
        }
    }

    /// Write one piece of the body under the declared framing strategy.
    pub fn write_body(&mut self, data: &[u8])
        requires
            old(self).wf(),
            write_body_allowed(old(self).msg(), data@.len()),
        ensures
            final(self).wf(),
            final(self).msg() == spec_write_body(old(self).msg(), data@).0,
            final(self).bytes() == old(self).bytes() + spec_write_body(old(self).msg(), data@).1,
            final(self).published() == old(self).published(),
            final(self).close_sent() == old(self).close_sent(),
    {
        self.message.write_body(&mut self.buf, data)
    }

    /// Finish the request and give up the writer: the returned handle has no
    /// write operations, so a finished request cannot be written to again.
    pub fn done(self) -> (r: EncoderDone)
        requires
            self.wf(),
            done_allowed(self.msg()),
        ensures
            r.bytes() == self.bytes() + spec_done(self.msg()).1,
    {
        let Encoder { message: mut message, buf: mut buf, state: _, close_signal: _, published: _, close_sent: _ } =
            self;
        message.done(&mut buf);
        EncoderDone { buf }
    }

    /// The current phase of the message, for callers that must test
    /// legality at run time before calling a writing method.
    pub fn phase(&self) -> (r: MessageState)
        ensures
            r == self.msg(),
    {
        self.message
    }

    /// Bytes currently buffered and not yet drained (possibly including
    /// bytes of an earlier pipelined request).
    pub fn bytes_buffered(&mut self) -> (r: usize)
        ensures
            *final(self) == *old(self),
            r == old(self).bytes().len(),
    {
        self.buf.len()
    }

    /// The buffered bytes, for the I/O driver to copy towards the socket.
    pub fn buffered(&self) -> (r: &Vec<u8>)
        ensures
            r@ == self.bytes(),
    {
        &self.buf
    }

    /// Remove `n` bytes from the front of the buffer once the I/O driver has
    /// written them out.  Appended bytes are never otherwise mutated.
    pub fn consume(&mut self, n: usize)
        requires
            n <= old(self).bytes().len(),
        ensures
            final(self).bytes() == old(self).bytes().skip(n as int),
            final(self).msg() == old(self).msg(),
            final(self).published() == old(self).published(),
            final(self).close_sent() == old(self).close_sent(),
            old(self).wf() ==> final(self).wf(),
    {
        let tail = self.buf.split_off(n);
        self.buf = tail;
        proof {
            assert(old(self).bytes().subrange(n as int, old(self).bytes().len() as int)
                =~= old(self).bytes().skip(n as int));
        }
    }

    /// Suspend the writer until the buffer has drained below `watermark`
    /// bytes.
    pub fn wait_flush(self, watermark: usize) -> (r: WaitFlush)
        ensures
            r.pending() == Some(self),
            r.watermark() == watermark,
    {
        WaitFlush { inner: Some(self), watermark: watermark }
    }
}

/// The one-shot back-pressure suspension point of the write path: it yields
/// the encoder back once the buffered bytes have drained below the
/// watermark.  The connection's driver alternates a non-blocking drain
/// (`buffered`, then `drain` with however many bytes the socket took) with
/// the `poll` decision.
pub struct WaitFlush {
    inner: Option<Encoder>,
    watermark: usize,
}

impl WaitFlush {
    /// The suspended encoder, until the wait completes.
    pub closed spec fn pending(self) -> Option<Encoder> {
        self.inner
    }

    pub closed spec fn watermark(self) -> usize {
        self.watermark
    }

    /// The bytes still buffered for the suspended encoder.
    pub fn buffered(&self) -> (r: &Vec<u8>)
        requires
            self.pending() is Some,
        ensures
            r@ == self.pending().unwrap().bytes(),
    {
        match &self.inner {
            Some(enc) => enc.buffered(),
            None => unreached(),
        }
    }

    /// Record that the I/O driver wrote the first `n` buffered bytes to the
    /// socket.
    pub fn drain(&mut self, n: usize)
        requires
            old(self).pending() is Some,
            n <= old(self).pending().unwrap().bytes().len(),
        ensures
            final(self).watermark() == old(self).watermark(),
            ({
                let e0 = old(self).pending().unwrap();
                final(self).pending() matches Some(e) && e.bytes() == e0.bytes().skip(n as int)
                    && e.msg() == e0.msg() && e.published() == e0.published() && e.close_sent()
                    == e0.close_sent() && (e0.wf() ==> e.wf())
            }),
    {
        let taken = self.inner.take();
        match taken {
            Some(mut enc) => {
                enc.consume(n);
                self.inner = Some(enc);
            },
            None => {},
        }
    }

    /// The completion decision: resolves, handing the encoder back, exactly
    /// when the buffered bytes are below the watermark; otherwise stays
    /// pending for another drain.  Completion empties the suspension point,
    /// so polling again after it resolved is illegal.
    pub fn poll(&mut self) -> (r: Option<Encoder>)
        requires
            old(self).pending() is Some,
        ensures
            final(self).watermark() == old(self).watermark(),
            ({
                let e = old(self).pending().unwrap();
                if e.bytes().len() < old(self).watermark() {
                    r == Some(e) && final(self).pending() is None
                } else {
                    r is None && final(self).pending() == old(self).pending()
                }
            }),
    {
        let below = match &self.inner {
            Some(enc) => enc.buffered().len() < self.watermark,
            None => false,
        };
        if below {
            self.inner.take()
        } else {
            None
        }
    }
}

} // verus!
