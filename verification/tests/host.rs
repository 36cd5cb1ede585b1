use codlet::plugin_host::protocol::{
    check_frame, validate_method, FrameFacts, HostIdentity, LineDecoder, MAX_HOST_FRAME_BYTES,
};
use codlet::plugin_host::ledger::{HostLedger, IncomingDecision, ResponseDecision};
use codlet::plugin_host::supervisor::{HostError, HostState};

fn identity() -> HostIdentity {
    HostIdentity { plugin_id: "dev.host".into(), generation: 2 }
}

fn request(generation: u64, id: u64, timeout_ms: Option<u64>) -> FrameFacts {
    FrameFacts::Request {
        version: 1,
        plugin_id: "dev.host".into(),
        generation,
        id,
        method: "x".into(),
        timeout_ms,
    }
}

fn response(ok: bool, result_key: bool, error_key: bool, error: Option<(&str, &str)>) -> FrameFacts {
    FrameFacts::Response {
        version: 1,
        plugin_id: "dev.host".into(),
        generation: 2,
        id: 1,
        ok,
        result_key,
        error_key,
        error: error.map(|(c, m)| (c.to_string(), m.to_string())),
    }
}

#[test]
fn jsonl_fragments_preserve_identity_and_strict_request_response_shapes() {
    let first = br#"{"v":1,"type":"request","pluginId":"dev.host","generation":2,"id":1,"method":"cdp.request","params":{}}"#;
    let second = br#"{"v":1,"type":"response","pluginId":"dev.host","generation":2,"id":1,"ok":true,"result":null}"#;
    let mut encoded = first.to_vec();
    encoded.push(b'\n');
    let mut decoder = LineDecoder::new();
    assert!(decoder.push(&encoded[..13]).unwrap().is_empty());
    assert!(decoder.has_partial_frame());
    let mut rest = encoded[13..].to_vec();
    rest.extend_from_slice(second);
    rest.extend_from_slice(b"\r\n");
    let frames = decoder.push(&rest).unwrap();
    assert_eq!(frames.len(), 2);
    assert_eq!(frames[0], first.to_vec());
    assert_eq!(frames[1], second.to_vec());
    assert!(!decoder.has_partial_frame());
    assert!(check_frame(&request(2, 1, None), &identity()).is_ok());
    assert!(check_frame(&response(true, true, false, None), &identity()).is_ok());
    for facts in [
        request(1, 1, None),
        request(2, 0, None),
        response(true, false, false, None),
        response(false, true, true, Some(("x", "bad"))),
    ] {
        assert!(check_frame(&facts, &identity()).is_err());
    }
    assert!(LineDecoder::new().push(b"\n").is_err());
    assert!(LineDecoder::new().push(&vec![b'x'; MAX_HOST_FRAME_BYTES + 1]).is_err());
}

#[test]
fn request_budget_is_bounded_and_legacy_requests_keep_their_wire_shape() {
    assert!(check_frame(&request(2, 1, None), &identity()).is_ok());
    for milliseconds in [1, 40, 15_000] {
        assert!(check_frame(&request(2, 1, Some(milliseconds)), &identity()).is_ok());
    }
    for invalid in [0, 15_001] {
        assert!(check_frame(&request(2, 1, Some(invalid)), &identity()).is_err());
    }
}

#[test]
fn frame_checks_report_the_first_broken_rule() {
    let mut v2 = request(2, 1, None);
    if let FrameFacts::Request { version, .. } = &mut v2 {
        *version = 2;
    }
    assert_eq!(check_frame(&v2, &identity()).unwrap_err(), "unsupported host protocol version 2");
    assert_eq!(
        check_frame(&request(3, 1, None), &identity()).unwrap_err(),
        "host frame does not match this plugin generation"
    );
    assert_eq!(
        check_frame(&request(2, 9_007_199_254_740_992, None), &identity()).unwrap_err(),
        "request id must be a positive JavaScript safe integer"
    );
    let notification = FrameFacts::Notification {
        version: 1,
        plugin_id: "dev.host".into(),
        generation: 2,
        method: "bad\u{1}method".into(),
    };
    assert_eq!(
        check_frame(&notification, &identity()).unwrap_err(),
        "method must contain 1..=256 bytes and no control characters"
    );
    assert!(check_frame(&response(false, false, true, Some(("code", "message"))), &identity()).is_ok());
    assert!(check_frame(&response(false, false, true, Some(("", "message"))), &identity()).is_err());
    assert!(validate_method(&"m".repeat(256)).is_ok());
    assert!(validate_method(&"m".repeat(257)).is_err());
    assert!(validate_method("").is_err());
}

#[test]
fn host_identities_need_a_valid_id_and_a_safe_positive_generation() {
    assert!(identity().validate().is_ok());
    assert_eq!(
        HostIdentity { plugin_id: "dev.host".into(), generation: 0 }.validate().unwrap_err(),
        "host-plugin generation must be a positive JavaScript safe integer"
    );
    assert_eq!(
        HostIdentity { plugin_id: "Dev Host".into(), generation: 1 }.validate().unwrap_err(),
        "invalid host-plugin id"
    );
    let error = HostError::new("protocol_error", "bad frame");
    assert_eq!(error.code, "protocol_error");
    assert_ne!(HostState::Ready, HostState::Failed);
}

#[test]
fn splitting_a_stream_across_reads_gives_the_same_lines() {
    let stream = b"alpha\nbeta\r\ngamma\npartial";
    let mut whole = LineDecoder::new();
    let all = whole.push(stream).unwrap();
    for cut in 0..stream.len() {
        let mut split = LineDecoder::new();
        let mut frames = split.push(&stream[..cut]).unwrap();
        frames.extend(split.push(&stream[cut..]).unwrap());
        assert_eq!(frames, all);
        assert_eq!(split.has_partial_frame(), whole.has_partial_frame());
    }
    assert_eq!(all, vec![b"alpha".to_vec(), b"beta".to_vec(), b"gamma".to_vec()]);
    assert_eq!(LineDecoder::new().push(b"a\n\r\n").unwrap_err(), "host stdout contains an empty protocol line");
}

#[test]
fn core_requests_get_increasing_ids_within_the_pending_limit_and_budget() {
    let mut ledger = HostLedger::new(1_000);
    assert_eq!(ledger.state(), HostState::Starting);
    assert_eq!(ledger.next_request("", 1_000, 2_000, false).unwrap_err().code, "invalid_method");
    assert_eq!(ledger.next_request("dev.\nping", 1_000, 2_000, false).unwrap_err().code, "invalid_method");
    assert_eq!(ledger.next_request("dev.ping", 1_000, 1_000, false).unwrap_err().code, "request_expired");
    assert_eq!(ledger.next_request("dev.ping", 1_000, 16_001, false).unwrap_err().code, "request_expired");
    assert_eq!(ledger.next_request("dev.ping", 1_000, 2_000, true).unwrap_err().code, "invocation_cancelled");
    for expected in 1..=16u64 {
        let id = ledger.next_request("dev.ping", 1_000, 2_000 + expected, false).unwrap();
        assert_eq!(id, expected);
        ledger.issued(id, 2_000 + expected);
    }
    assert_eq!(ledger.next_request("dev.ping", 1_000, 2_000, false).unwrap_err().code, "request_limit");
    assert_eq!(ledger.accept_response(1, 1_500), Ok(ResponseDecision::Deliver));
    assert_eq!(ledger.accept_response(1, 1_500), Ok(ResponseDecision::Stale));
    assert_eq!(ledger.accept_response(2, 9_000), Ok(ResponseDecision::TimedOut));
    assert_eq!(
        ledger.accept_response(99, 1_500).unwrap_err(),
        "Host answered a request id that Core never issued"
    );
    ledger.cancel_request(3);
    assert_eq!(ledger.accept_response(3, 1_500), Ok(ResponseDecision::Stale));
    assert!(ledger.mark_ready(1_200).is_ok());
    assert_eq!(ledger.mark_ready(1_300).unwrap_err().code, "host_not_starting");
}

#[test]
fn host_requests_must_increase_and_are_answered_by_their_deadline() {
    let mut ledger = HostLedger::new(0);
    assert_eq!(ledger.accept_request(5, Some(1_000), 100, 200), Ok(IncomingDecision::Deliver { deadline: 1_100 }));
    assert_eq!(ledger.incoming_deadline(5), Some(1_100));
    assert_eq!(
        ledger.accept_request(5, None, 100, 200).unwrap_err(),
        "Host request ids must increase and cannot be repeated"
    );
    assert_eq!(ledger.accept_request(6, Some(50), 100, 200), Ok(IncomingDecision::RefuseExpired));
    assert_eq!(ledger.accept_request(7, None, 100, 200), Ok(IncomingDecision::Deliver { deadline: 15_100 }));
    assert_eq!(ledger.answer_deadline(5, 300).unwrap(), 1_100);
    ledger.answered(5);
    assert_eq!(ledger.answer_deadline(5, 300).unwrap_err().code, "unknown_request");
    assert_eq!(ledger.answer_deadline(7, 20_000).unwrap_err().code, "request_expired");
    assert_eq!(ledger.incoming_deadline(7), None);
    for id in 10..26u64 {
        assert!(matches!(ledger.accept_request(id, None, 0, 1), Ok(IncomingDecision::Deliver { .. })));
    }
    assert_eq!(ledger.accept_request(30, None, 0, 1).unwrap_err(), "Host exceeded its pending request limit");
}

#[test]
fn deadlines_fail_a_slow_start_and_time_out_pending_requests() {
    let mut ledger = HostLedger::new(0);
    let id = ledger.next_request("dev.ping", 0, 1_000, false).unwrap();
    ledger.issued(id, 1_000);
    assert!(matches!(ledger.accept_request(1, Some(500), 0, 0), Ok(IncomingDecision::Deliver { .. })));
    let (timed_out, unanswered) = ledger.expire(600, None, None);
    assert!(timed_out.is_empty());
    assert_eq!(unanswered, vec![1]);
    let (timed_out, _) = ledger.expire(1_000, None, None);
    assert_eq!(timed_out, vec![1]);
    assert_eq!(ledger.state(), HostState::Starting);
    let (timed_out, unanswered) = ledger.expire(5_000, None, None);
    assert!(timed_out.is_empty() && unanswered.is_empty());
    assert_eq!(ledger.state(), HostState::Failed);
    assert_eq!(ledger.take_failure_report().unwrap().code, "startup_timeout");
    assert!(ledger.take_failure_report().is_none());
    assert!(ledger.forced());

    let mut ledger = HostLedger::new(0);
    assert!(ledger.mark_ready(10).is_ok());
    ledger.expire(20_000, Some(4_000), None);
    assert_eq!(ledger.failure().unwrap().code, "frame_timeout");
    let mut ledger = HostLedger::new(0);
    assert!(ledger.mark_ready(10).is_ok());
    ledger.expire(100, None, Some(100));
    assert_eq!(ledger.failure().unwrap().code, "write_timeout");
}

#[test]
fn shutdown_is_sent_once_and_the_exit_is_reported_after_draining() {
    let mut ledger = HostLedger::new(0);
    assert!(ledger.mark_ready(10).is_ok());
    let grace = ledger.begin_stop(100, true).unwrap();
    assert_eq!(grace, 1_600);
    assert_eq!(ledger.state(), HostState::Stopping);
    let id = ledger.next_request("shutdown", 100, 1_600, false);
    // Requests are no longer admitted once stopping began; the owner sends
    // shutdown through its own queue with the reserved ID.
    assert_eq!(id.unwrap_err().code, "host_unavailable");
    ledger.shutdown_issued(1);
    assert_eq!(ledger.shutdown_request_id(), Some(1));
    assert_eq!(ledger.begin_stop(200, true), None);
    assert!(matches!(ledger.accept_request(1, None, 150, 150), Ok(IncomingDecision::Deliver { deadline: 1_600 })));
    assert!(!ledger.accepts_notification());
    assert!(!ledger.grace_expired(1_000));
    assert!(ledger.grace_expired(1_600));
    assert!(ledger.forced());
    assert_eq!(ledger.accept_request(2, None, 1_700, 1_700), Ok(IncomingDecision::RefuseStopping));
    assert!(ledger.reads_frames());
    ledger.process_exited();
    assert_eq!(ledger.state(), HostState::Exited);
    assert!(!ledger.report_exit(true, true, false));
    assert!(ledger.report_exit(true, true, true));
    assert!(!ledger.report_exit(true, true, true));
    assert!(!ledger.reads_frames());
}

use codlet::plugin_host::streams::{outbound_due, partial_since, request_deadline, StderrTail};

#[test]
fn the_stderr_tail_keeps_the_last_64_kib() {
    let mut tail = StderrTail::new();
    tail.append(b"hello ");
    tail.append(b"world");
    assert_eq!(tail.bytes(), b"hello world".to_vec());
    let big = vec![b'x'; 70_000];
    tail.append(&big);
    let kept = tail.bytes();
    assert_eq!(kept.len(), 65_536);
    assert!(kept.iter().all(|b| *b == b'x'));
    tail.append(b"end");
    let kept = tail.bytes();
    assert_eq!(kept.len(), 65_536);
    assert_eq!(&kept[kept.len() - 3..], b"end");
    let mut huge = StderrTail::new();
    let mut data = vec![b'a'; 65_536];
    data.extend_from_slice(b"zz");
    huge.append(&data);
    let kept = huge.bytes();
    assert_eq!(kept.len(), 65_536);
    assert_eq!(&kept[kept.len() - 2..], b"zz");
    assert_eq!(kept[0], b'a');
}

#[test]
fn incomplete_frames_are_timed_from_their_start() {
    assert_eq!(partial_since(false, true, false, None, 10), Some(10));
    assert_eq!(partial_since(true, true, false, Some(10), 20), Some(10));
    assert_eq!(partial_since(true, true, true, Some(10), 20), Some(20));
    assert_eq!(partial_since(true, false, true, Some(10), 20), None);
    assert!(outbound_due(5, 6, false));
    assert!(!outbound_due(6, 6, false));
    assert!(!outbound_due(5, 6, true));
}

#[test]
fn request_timeouts_are_bounded() {
    assert_eq!(request_deadline(100, 15_000).unwrap(), 15_100);
    assert_eq!(request_deadline(100, 0).unwrap_err().code, "invalid_timeout");
    assert_eq!(
        request_deadline(100, 15_001).unwrap_err().message,
        "Host request timeout must be greater than zero and at most 15 seconds"
    );
    assert_eq!(
        request_deadline(u64::MAX, 1).unwrap_err().message,
        "Host request deadline cannot be represented"
    );
}
