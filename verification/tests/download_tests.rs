//! The download engine's machines on concrete runs: the byte-range
//! iterator, chunk retry tolerance and exhaustion, the concurrency bound,
//! and the outer retry loop's cap.

use dumptruckrss::download::{
    range_header, ChunkTransfer, DownloadOrchestrator, FailureRecord, PartialRangeIter,
    RetryPolicy, TransferFailure, TransferState,
};

#[test]
fn range_header_text() {
    assert_eq!(range_header(0, 4999999), "bytes=0-4999999".to_owned());
    assert_eq!(range_header(5000000, 9999999), "bytes=5000000-9999999".to_owned());
}

#[test]
fn partial_range_iter_steps_and_stops() {
    let mut it = PartialRangeIter::new(0, 9, 4).unwrap();
    let (h1, c1) = it.next().unwrap();
    assert_eq!(h1, "bytes=0-3".to_owned());
    assert_eq!(c1, 3);
    let (h2, c2) = it.next().unwrap();
    assert_eq!(h2, "bytes=4-7".to_owned());
    assert_eq!(c2, 3);
    let (h3, c3) = it.next().unwrap();
    assert_eq!(h3, "bytes=8-9".to_owned());
    assert_eq!(c3, 1);
    assert!(it.next().is_none());
}

#[test]
fn partial_range_iter_rejects_zero_buffer() {
    assert_eq!(
        PartialRangeIter::new(0, 9, 0).err().unwrap(),
        "invalid buffer_size, give a value greater than zero."
    );
}

#[test]
fn chunk_transfer_retries_then_succeeds() {
    // 10 bytes in chunks of 4; 3 attempts per chunk; 300 ms base delay
    let mut m = ChunkTransfer::new(10, 4, 3, 300);
    assert_eq!(m.state, TransferState::Init);
    m.on_file_created();
    assert_eq!(m.state, TransferState::RequestChunk);
    assert_eq!(m.request_header(), "bytes=0-3".to_owned());

    // two failures burn two attempts, with linear backoff
    assert_eq!(m.on_status(500), Some(600));
    assert_eq!(m.state, TransferState::RetryWait);
    m.on_wait_done();
    assert_eq!(m.on_status(503), Some(900));
    m.on_wait_done();

    // the third attempt succeeds: the chunk completes the item normally
    assert_eq!(m.on_status(206), None);
    assert_eq!(m.state, TransferState::WriteChunk);
    m.on_written();
    assert_eq!(m.state, TransferState::RequestChunk);
    assert_eq!(m.request_header(), "bytes=4-7".to_owned());

    // a 200 from a non-conformant server is accepted too
    assert_eq!(m.on_status(200), None);
    m.on_written();
    assert_eq!(m.request_header(), "bytes=8-9".to_owned());
    assert_eq!(m.on_status(206), None);
    m.on_written();
    assert_eq!(m.state, TransferState::Done);
}

#[test]
fn chunk_transfer_fails_after_max_attempts() {
    let mut m = ChunkTransfer::new(10, 4, 2, 300);
    m.on_file_created();
    assert_eq!(m.on_status(500), Some(600));
    m.on_wait_done();
    // the second attempt also fails: the budget of 2 is exhausted
    assert_eq!(m.on_status(502), None);
    assert_eq!(m.state, TransferState::Failed);
    assert_eq!(m.failure, Some(TransferFailure::BadStatus(502)));
}

#[test]
fn chunk_transfer_network_and_write_failures() {
    let mut m = ChunkTransfer::new(10, 4, 1, 300);
    m.on_file_created();
    assert_eq!(m.on_network_error(), None);
    assert_eq!(m.state, TransferState::Failed);
    assert_eq!(m.failure, Some(TransferFailure::Network));

    let mut w = ChunkTransfer::new(10, 4, 3, 300);
    w.on_file_created();
    assert_eq!(w.on_status(206), None);
    w.on_write_error();
    assert_eq!(w.state, TransferState::Failed);
    assert_eq!(w.failure, Some(TransferFailure::Write));
}

#[test]
fn orchestrator_bounds_concurrency() {
    let mut o = DownloadOrchestrator::new(vec![7, 8, 9], 2);
    // candidates start from the back of the list
    assert_eq!(o.try_start(), Some(9));
    assert_eq!(o.try_start(), Some(8));
    assert_eq!(o.in_flight, 2);
    // the concurrency limit of 2 refuses a third start
    assert_eq!(o.try_start(), None);
    o.finish(None);
    assert_eq!(o.try_start(), Some(7));
    assert_eq!(o.in_flight, 2);
    o.finish(Some(FailureRecord {
        item: 9,
        dest: "/tmp/out/nine.mp3".to_owned(),
        error: TransferFailure::Network,
    }));
    o.finish(None);
    assert!(o.is_done());
    let failures = o.into_failures();
    assert_eq!(failures.len(), 1);
    assert_eq!(failures[0].item, 9);
}

#[test]
fn retry_policy_stops_on_empty_failures() {
    let mut p = RetryPolicy::new();
    assert!(!p.record_round(0));
    assert_eq!(p.rounds, 1);
}

#[test]
fn retry_policy_caps_at_ten_rounds() {
    let mut p = RetryPolicy::new();
    for _ in 0..9 {
        // failures never clear, but the loop may still go on
        assert!(p.record_round(5));
    }
    // the tenth round reaches the cap: the loop must stop
    assert!(!p.record_round(5));
    assert_eq!(p.rounds, 10);
}

#[test]
fn partial_range_iter_single_byte() {
    let mut it = PartialRangeIter::new(0, 0, 4).unwrap();
    let (h, c) = it.next().unwrap();
    assert_eq!(h, "bytes=0-0".to_owned());
    assert_eq!(c, 0);
    assert!(it.next().is_none());
}
