use std::sync::atomic::{AtomicBool, AtomicUsize, Ordering};
use std::sync::Arc;

use http_encoder::encoder::{get_inner, new, Encoder};
use http_encoder::message::{HeaderError, Version};

fn fresh() -> (Encoder, Arc<AtomicUsize>, Arc<AtomicBool>) {
    let state = Arc::new(AtomicUsize::new(0));
    let close = Arc::new(AtomicBool::new(false));
    let enc = new(Vec::new(), state.clone(), close.clone());
    (enc, state, close)
}

#[test]
fn get_request_exact_bytes() {
    let (mut enc, _state, _close) = fresh();
    enc.request_line("GET", "/", Version::Http11);
    enc.add_header("Host", b"example.com").unwrap();
    enc.add_length(0).unwrap();
    enc.done_headers().unwrap();
    let done = enc.done();
    let bytes = get_inner(done);
    assert_eq!(
        bytes.as_slice(),
        b"GET / HTTP/1.1\r\nHost: example.com\r\nContent-Length: 0\r\n\r\n" as &[u8]
    );
}

#[test]
fn chunked_body_exact_bytes() {
    let (mut enc, _state, _close) = fresh();
    enc.request_line("POST", "/upload", Version::Http11);
    enc.add_chunked().unwrap();
    enc.done_headers().unwrap();
    enc.write_body(b"abc");
    enc.write_body(b"de");
    let bytes = get_inner(enc.done());
    assert_eq!(
        bytes.as_slice(),
        b"POST /upload HTTP/1.1\r\nTransfer-Encoding: chunked\r\n\r\n3\r\nabc\r\n2\r\nde\r\n0\r\n\r\n"
            as &[u8]
    );
}

#[test]
fn chunked_empty_write_appends_nothing() {
    let (mut enc, _state, _close) = fresh();
    enc.request_line("POST", "/", Version::Http11);
    enc.add_chunked().unwrap();
    enc.done_headers().unwrap();
    let before = enc.buffered().len();
    enc.write_body(b"");
    assert_eq!(enc.buffered().len(), before);
    let bytes = get_inner(enc.done());
    assert!(bytes.ends_with(b"\r\n\r\n0\r\n\r\n"));
}

#[test]
fn chunk_size_in_lower_hex() {
    let (mut enc, _state, _close) = fresh();
    enc.request_line("POST", "/", Version::Http11);
    enc.add_chunked().unwrap();
    enc.done_headers().unwrap();
    enc.write_body(b"abcdefghijklmnopqrstuvwxyz");
    let bytes = get_inner(enc.done());
    let text = String::from_utf8(bytes).unwrap();
    assert!(text.ends_with("\r\n\r\n1a\r\nabcdefghijklmnopqrstuvwxyz\r\n0\r\n\r\n"));
}

#[test]
fn content_length_decimal_formatting() {
    let (mut enc, _state, _close) = fresh();
    enc.request_line("GET", "/", Version::Http10);
    enc.add_length(1234567890).unwrap();
    enc.done_headers().unwrap();
    let buffered = enc.buffered().clone();
    let text = String::from_utf8(buffered).unwrap();
    assert_eq!(text, "GET / HTTP/1.0\r\nContent-Length: 1234567890\r\n\r\n");
}

#[test]
fn duplicate_length_after_length() {
    let (mut enc, _state, _close) = fresh();
    enc.request_line("GET", "/", Version::Http11);
    enc.add_length(5).unwrap();
    let before = enc.buffered().clone();
    assert_eq!(enc.add_length(7), Err(HeaderError::DuplicateBodyLength));
    assert_eq!(enc.buffered().as_slice(), before.as_slice());
}

#[test]
fn duplicate_length_after_chunked() {
    let (mut enc, _state, _close) = fresh();
    enc.request_line("GET", "/", Version::Http11);
    enc.add_chunked().unwrap();
    let before = enc.buffered().clone();
    assert_eq!(enc.add_length(7), Err(HeaderError::DuplicateBodyLength));
    assert_eq!(enc.buffered().as_slice(), before.as_slice());
}

#[test]
fn duplicate_chunked_after_length() {
    let (mut enc, _state, _close) = fresh();
    enc.request_line("GET", "/", Version::Http11);
    enc.add_length(5).unwrap();
    let before = enc.buffered().clone();
    assert_eq!(enc.add_chunked(), Err(HeaderError::DuplicateBodyLength));
    assert_eq!(enc.buffered().as_slice(), before.as_slice());
}

#[test]
fn duplicate_chunked_after_chunked() {
    let (mut enc, _state, _close) = fresh();
    enc.request_line("GET", "/", Version::Http11);
    enc.add_chunked().unwrap();
    let before = enc.buffered().clone();
    assert_eq!(enc.add_chunked(), Err(HeaderError::DuplicateBodyLength));
    assert_eq!(enc.buffered().as_slice(), before.as_slice());
}

#[test]
fn invalid_header_name_rejected() {
    let (mut enc, _state, _close) = fresh();
    enc.request_line("GET", "/", Version::Http11);
    let before = enc.buffered().clone();
    assert_eq!(enc.add_header("", b"x"), Err(HeaderError::InvalidHeaderName));
    assert_eq!(
        enc.add_header("Bad Name", b"x"),
        Err(HeaderError::InvalidHeaderName)
    );
    assert_eq!(
        enc.add_header("Bad:Name", b"x"),
        Err(HeaderError::InvalidHeaderName)
    );
    assert_eq!(enc.buffered().as_slice(), before.as_slice());
}

#[test]
fn invalid_header_value_rejected() {
    let (mut enc, _state, _close) = fresh();
    enc.request_line("GET", "/", Version::Http11);
    let before = enc.buffered().clone();
    assert_eq!(
        enc.add_header("X-A", b"bad\r\nvalue"),
        Err(HeaderError::InvalidHeaderValue)
    );
    assert_eq!(
        enc.add_header("X-A", b"bad\0value"),
        Err(HeaderError::InvalidHeaderValue)
    );
    assert_eq!(enc.buffered().as_slice(), before.as_slice());
}

#[test]
fn body_length_header_rejected() {
    let (mut enc, _state, _close) = fresh();
    enc.request_line("GET", "/", Version::Http11);
    let before = enc.buffered().clone();
    assert_eq!(
        enc.add_header("Content-Length", b"10"),
        Err(HeaderError::BodyLengthHeader)
    );
    assert_eq!(
        enc.add_header("transfer-encoding", b"chunked"),
        Err(HeaderError::BodyLengthHeader)
    );
    assert_eq!(
        enc.add_header("CONTENT-length", b"10"),
        Err(HeaderError::BodyLengthHeader)
    );
    assert_eq!(enc.buffered().as_slice(), before.as_slice());
}

#[test]
fn connection_close_sets_flag() {
    let (mut enc, _state, close) = fresh();
    enc.request_line("GET", "/", Version::Http11);
    assert!(!close.load(Ordering::SeqCst));
    enc.add_header("Connection", b"close").unwrap();
    assert!(close.load(Ordering::SeqCst));
    // the flag never reverts
    enc.add_header("X-Other", b"y").unwrap();
    assert!(close.load(Ordering::SeqCst));
}

#[test]
fn connection_close_case_and_list() {
    let (mut enc, _state, close) = fresh();
    enc.request_line("GET", "/", Version::Http11);
    enc.add_header("connection", b"keep-alive, CLOSE").unwrap();
    assert!(close.load(Ordering::SeqCst));
}

#[test]
fn connection_close_with_spaces() {
    let (mut enc, _state, close) = fresh();
    enc.request_line("GET", "/", Version::Http11);
    enc.add_header("Connection", b"  Close  ").unwrap();
    assert!(close.load(Ordering::SeqCst));
}

#[test]
fn connection_non_close_never_sets_flag() {
    let (mut enc, _state, close) = fresh();
    enc.request_line("GET", "/", Version::Http11);
    enc.add_header("Connection", b"keep-alive").unwrap();
    assert!(!close.load(Ordering::SeqCst));
    enc.add_header("Connection", b"closed").unwrap();
    assert!(!close.load(Ordering::SeqCst));
    enc.add_header("X-Connection", b"close").unwrap();
    assert!(!close.load(Ordering::SeqCst));
}

#[test]
fn head_publishes_head_kind() {
    let (mut enc, state, _close) = fresh();
    assert_eq!(state.load(Ordering::SeqCst), 0);
    enc.request_line("HEAD", "/x", Version::Http11);
    assert_eq!(state.load(Ordering::SeqCst), 1);
}

#[test]
fn head_any_letter_case_publishes_head_kind() {
    let (mut enc, state, _close) = fresh();
    enc.request_line("hEaD", "/x", Version::Http11);
    assert_eq!(state.load(Ordering::SeqCst), 1);
}

#[test]
fn other_method_publishes_normal_kind() {
    let (mut enc, state, _close) = fresh();
    enc.request_line("GET", "/", Version::Http11);
    assert_eq!(state.load(Ordering::SeqCst), 2);
    // no later call writes the signal again
    enc.add_header("Host", b"h").unwrap();
    enc.add_length(0).unwrap();
    enc.done_headers().unwrap();
    let _ = enc.done();
    assert_eq!(state.load(Ordering::SeqCst), 2);
}

#[test]
fn fixed_body_written_in_parts() {
    let (mut enc, _state, _close) = fresh();
    enc.request_line("PUT", "/f", Version::Http11);
    enc.add_length(5).unwrap();
    enc.done_headers().unwrap();
    enc.write_body(b"he");
    enc.write_body(b"llo");
    let bytes = get_inner(enc.done());
    assert_eq!(
        bytes.as_slice(),
        b"PUT /f HTTP/1.1\r\nContent-Length: 5\r\n\r\nhello" as &[u8]
    );
}

#[test]
fn bytes_buffered_counts_pending_output() {
    let (mut enc, _state, _close) = fresh();
    assert_eq!(enc.bytes_buffered(), 0);
    enc.request_line("GET", "/", Version::Http11);
    assert_eq!(enc.bytes_buffered(), "GET / HTTP/1.1\r\n".len());
}

#[test]
fn buffer_carries_earlier_pipelined_bytes() {
    let state = Arc::new(AtomicUsize::new(0));
    let close = Arc::new(AtomicBool::new(false));
    let mut enc = new(b"left".to_vec(), state, close);
    assert_eq!(enc.bytes_buffered(), 4);
    enc.request_line("GET", "/", Version::Http11);
    assert!(enc.buffered().starts_with(b"left"));
}

#[test]
fn consume_drains_from_front_only() {
    let (mut enc, _state, _close) = fresh();
    enc.request_line("GET", "/", Version::Http11);
    enc.consume(4);
    assert!(enc.buffered().starts_with(b"/ HTTP/1.1\r\n"));
}

#[test]
fn wait_flush_ready_below_watermark() {
    let (mut enc, _state, _close) = fresh();
    enc.request_line("GET", "/", Version::Http11);
    let len = enc.bytes_buffered();
    let mut wait = enc.wait_flush(len + 1);
    let back = wait.poll();
    assert!(back.is_some());
    assert_eq!(back.unwrap().bytes_buffered(), len);
}

#[test]
fn wait_flush_pends_until_drained() {
    let (mut enc, _state, _close) = fresh();
    enc.request_line("GET", "/", Version::Http11);
    let len = enc.bytes_buffered();
    assert!(len >= 4);
    let mut wait = enc.wait_flush(4);
    assert!(wait.poll().is_none());
    // an observed drain brings the buffer below the watermark
    wait.drain(len - 3);
    let back = wait.poll();
    assert!(back.is_some());
    assert_eq!(back.unwrap().bytes_buffered(), 3);
}

#[test]
fn done_after_empty_fixed_body() {
    let (mut enc, _state, _close) = fresh();
    enc.request_line("DELETE", "/r", Version::Http11);
    enc.add_length(0).unwrap();
    enc.done_headers().unwrap();
    let bytes = get_inner(enc.done());
    assert!(bytes.ends_with(b"Content-Length: 0\r\n\r\n"));
}

#[test]
fn no_body_request_without_declaration() {
    let (mut enc, _state, _close) = fresh();
    enc.request_line("GET", "/plain", Version::Http11);
    enc.add_header("Host", b"h").unwrap();
    enc.done_headers().unwrap();
    let bytes = get_inner(enc.done());
    assert_eq!(
        bytes.as_slice(),
        b"GET /plain HTTP/1.1\r\nHost: h\r\n\r\n" as &[u8]
    );
}

#[test]
fn rejected_connection_close_header_still_sets_flag() {
    let (mut enc, _state, close) = fresh();
    enc.request_line("GET", "/", Version::Http11);
    // one element requests a close, another holds a forbidden byte: the
    // header is rejected, but the close request was observed
    assert_eq!(
        enc.add_header("Connection", b"close, bad\0elem"),
        Err(HeaderError::InvalidHeaderValue)
    );
    assert!(close.load(Ordering::SeqCst));
}

#[test]
fn content_length_largest_value() {
    let (mut enc, _state, _close) = fresh();
    enc.request_line("GET", "/", Version::Http11);
    enc.add_length(u64::MAX).unwrap();
    let buffered = enc.buffered().clone();
    let text = String::from_utf8(buffered).unwrap();
    assert!(text.ends_with("Content-Length: 18446744073709551615\r\n"));
}
