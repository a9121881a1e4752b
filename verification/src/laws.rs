//! Laws of the encoding state machine, stated over the spec transition
//! functions that the executable methods are proved to implement.

use vstd::prelude::*;
use crate::headers::{connection_name, eq_ignore_case, head_method, is_close_value};
use crate::message::{
    done_allowed, spec_add_chunked, spec_add_header, spec_add_length, spec_done,
    spec_done_headers, spec_write_body, write_body_allowed, BodyKind, HeaderError, MessageState,
};
use crate::wire::last_chunk_bytes;
use crate::encoder::{classify_method, RequestState};

verus! {

/// Declaring the body framing twice always fails with `DuplicateBodyLength`
/// and appends nothing, whichever of `add_length` and `add_chunked` came
/// first and whichever is repeated: previously written bytes are never
/// corrupted.
pub proof fn lemma_duplicate_body_length(m: MessageState, n1: u64, n2: u64)
    requires
        m is Headers,
    ensures
        ({
            let (m1, _, r1) = spec_add_length(m, n1);
            r1 is Ok ==> spec_add_length(m1, n2) == (
                m1,
                Seq::<u8>::empty(),
                Err::<(), HeaderError>(HeaderError::DuplicateBodyLength),
            ) && spec_add_chunked(m1) == (
                m1,
                Seq::<u8>::empty(),
                Err::<(), HeaderError>(HeaderError::DuplicateBodyLength),
            )
        }),
        ({
            let (m1, _, r1) = spec_add_chunked(m);
            r1 is Ok ==> spec_add_length(m1, n2) == (
                m1,
                Seq::<u8>::empty(),
                Err::<(), HeaderError>(HeaderError::DuplicateBodyLength),
            ) && spec_add_chunked(m1) == (
                m1,
                Seq::<u8>::empty(),
                Err::<(), HeaderError>(HeaderError::DuplicateBodyLength),
            )
        }),
{
}

/// Under a fixed declared length the cumulative body size is pinned: a write
/// that would exceed the declared total is not allowed at all (so the excess
/// byte is never appended), and a legal write appends exactly its input and
/// advances the count, which never passes the declared length.
pub proof fn lemma_fixed_length_bound(n: u64, written: u64, data: Seq<u8>)
    requires
        written <= n,
    ensures
        written + data.len() > n ==> !write_body_allowed(
            MessageState::Body { body: BodyKind::Fixed(n), written },
            data.len(),
        ),
        written + data.len() <= n ==> write_body_allowed(
            MessageState::Body { body: BodyKind::Fixed(n), written },
            data.len(),
        ) && spec_write_body(MessageState::Body { body: BodyKind::Fixed(n), written }, data) == (
            MessageState::Body { body: BodyKind::Fixed(n), written: (written + data.len()) as u64 },
            data,
        ),
{
}

/// Finishing a chunked body appends exactly one terminating zero-length
/// chunk and reaches the terminal state, where no further `done` (nor any
/// other operation) is allowed: finishing is not idempotent.
pub proof fn lemma_chunked_finish(written: u64)
    ensures
        spec_done(MessageState::Body { body: BodyKind::Chunked, written }) == (
            MessageState::Done,
            last_chunk_bytes(),
        ),
        !done_allowed(MessageState::Done),
        !write_body_allowed(MessageState::Done, 0),
{
}

/// The connection-close flag after a header is observed: a `Connection`
/// header whose value requests a close always raises it, any other header
/// leaves it unchanged, and it never reverts from raised to clear.
pub proof fn lemma_close_flag_monotonic(prev: bool, name: Seq<u8>, value: Seq<u8>)
    ensures
        ({
            let next = prev || (eq_ignore_case(name, connection_name()) && is_close_value(value));
            (eq_ignore_case(name, connection_name()) && is_close_value(value) ==> next) && (!(
            eq_ignore_case(name, connection_name()) && is_close_value(value)) ==> next == prev) && (
            prev ==> next)
        }),
{
}

/// The published in-flight kind is a function of the method alone: `HEAD` in
/// any letter case is published as `StartedHead`, every other method as
/// `StartedNormal`, and a request line never publishes `Empty`.
pub proof fn lemma_method_classification(m: Seq<u8>)
    ensures
        eq_ignore_case(m, head_method()) ==> classify_method(m) == RequestState::StartedHead,
        !eq_ignore_case(m, head_method()) ==> classify_method(m) == RequestState::StartedNormal,
        classify_method(m) != RequestState::Empty,
{
}

/// A body write needs an open body phase and a declared framing strategy:
/// before the request line, while headers are open, before a strategy was
/// chosen, and after the message is done, no write is legal.
pub proof fn lemma_write_body_needs_strategy(m: MessageState, len: nat)
    ensures
        (m matches MessageState::Body { body: BodyKind::Unset, written: _ }) ==> !write_body_allowed(m, len),
        m is RequestStart ==> !write_body_allowed(m, len),
        m is Headers ==> !write_body_allowed(m, len),
        m is Done ==> !write_body_allowed(m, len),
{
}

/// The position of each phase in the lifecycle of one request.
pub open spec fn phase_rank(m: MessageState) -> int {
    match m {
        MessageState::RequestStart => 0,
        MessageState::Headers { body: _ } => 1,
        MessageState::Body { body: _, written: _ } => 2,
        MessageState::Done => 3,
    }
}

/// Transitions are strictly forward: no operation ever moves the message to
/// an earlier phase, and closing the headers or the message strictly
/// advances it.
pub proof fn lemma_transitions_forward(
    m: MessageState,
    name: Seq<u8>,
    value: Seq<u8>,
    n: u64,
    data: Seq<u8>,
)
    ensures
        phase_rank(spec_add_header(m, name, value).0) >= phase_rank(m),
        phase_rank(spec_add_length(m, n).0) >= phase_rank(m),
        phase_rank(spec_add_chunked(m).0) >= phase_rank(m),
        m is Headers ==> phase_rank(spec_done_headers(m).0) > phase_rank(m),
        phase_rank(spec_write_body(m, data).0) >= phase_rank(m),
        done_allowed(m) ==> phase_rank(spec_done(m).0) > phase_rank(m),
{
}

} // verus!
