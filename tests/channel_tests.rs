use worker_farm::channel::{ChannelState, Fault, Inbound, WorkerChannel};
use worker_farm::error::FarmError;

fn issue(c: &mut WorkerChannel<&'static str>, payload: &[u8], waiter: &'static str) -> u64 {
    let (id, _) = c.send(b"run_resolver", payload, waiter).unwrap();
    id
}

#[test]
fn send_allocates_increasing_ids_and_frames() {
    let mut c: WorkerChannel<&str> = WorkerChannel::new();
    let (a, fa) = c.send(b"run_resolver", b"{}", "a").unwrap();
    let (b, fb) = c.send(b"run_resolver", b"[1]", "b").unwrap();
    assert_eq!((a, b), (0, 1));
    assert_eq!(fa, b"0\nrun_resolver\n{}\n".to_vec());
    assert_eq!(fb, b"1\nrun_resolver\n[1]\n".to_vec());
    assert_eq!(c.pending_count(), 2);
    assert_eq!(c.next_id(), 2);
}

#[test]
fn payload_with_raw_newline_is_refused_without_failing() {
    let mut c: WorkerChannel<&str> = WorkerChannel::new();
    assert_eq!(c.send(b"run_resolver", b"{\"a\":\n1}", "a"), Err(FarmError::Serialization));
    assert_eq!(c.send(b"run\nresolver", b"{}", "a"), Err(FarmError::Serialization));
    assert_eq!(c.state(), ChannelState::Ready);
    assert_eq!(c.pending_count(), 0);
    assert_eq!(c.next_id(), 0);
}

#[test]
fn response_goes_to_its_own_waiter() {
    let mut c: WorkerChannel<&str> = WorkerChannel::new();
    let a = issue(&mut c, b"1", "a");
    let b = issue(&mut c, b"2", "b");
    assert!(matches!(c.receive_line(b.to_string().as_bytes()), Inbound::Awaiting));
    match c.receive_line(b"\"for b\"") {
        Inbound::Deliver { request_id, waiter, payload } => {
            assert_eq!(request_id, b);
            assert_eq!(waiter, "b");
            assert_eq!(payload, b"\"for b\"".to_vec());
        }
        _ => panic!("expected a delivery"),
    }
    assert!(matches!(c.receive_line(a.to_string().as_bytes()), Inbound::Awaiting));
    match c.receive_line(b"\"for a\"") {
        Inbound::Deliver { request_id, waiter, payload } => {
            assert_eq!(request_id, a);
            assert_eq!(waiter, "a");
            assert_eq!(payload, b"\"for a\"".to_vec());
        }
        _ => panic!("expected a delivery"),
    }
    assert_eq!(c.pending_count(), 0);
    assert!(c.is_ready());
}

#[test]
fn echo_returns_the_payload() {
    let mut c: WorkerChannel<u32> = WorkerChannel::new();
    let payload = b"{\"from_path\":\"/tmp\",\"specifier\":\"hi\"}";
    let (id, frame) = c.send(b"echo", payload, 9).unwrap();
    let lines: Vec<&[u8]> = frame.split(|b| *b == b'\n').collect();
    assert!(matches!(c.receive_line(lines[0]), Inbound::Awaiting));
    match c.receive_line(lines[2]) {
        Inbound::Deliver { request_id, waiter, payload: p } => {
            assert_eq!(request_id, id);
            assert_eq!(waiter, 9);
            assert_eq!(p, payload.to_vec());
        }
        _ => panic!("expected a delivery"),
    }
}

#[test]
fn unknown_response_fails_the_channel() {
    let mut c: WorkerChannel<&str> = WorkerChannel::new();
    issue(&mut c, b"1", "a");
    issue(&mut c, b"2", "b");
    assert!(matches!(c.receive_line(b"77"), Inbound::Awaiting));
    match c.receive_line(b"{}") {
        Inbound::Failed { fault, waiters } => {
            assert_eq!(fault, Fault::UnknownRequest);
            assert_eq!(waiters, vec![(0, "a"), (1, "b")]);
        }
        _ => panic!("expected a failure"),
    }
    assert_eq!(c.state(), ChannelState::Failed(Fault::UnknownRequest));
    assert_eq!(c.send(b"run_resolver", b"{}", "c"), Err(FarmError::ChannelClosed));
    assert!(matches!(c.receive_line(b"0"), Inbound::Ignored));
}

#[test]
fn raw_newline_in_payload_is_a_framing_error() {
    let mut c: WorkerChannel<&str> = WorkerChannel::new();
    issue(&mut c, b"1", "a");
    issue(&mut c, b"2", "b");
    // The runtime answers request 0 with `{"file_path":"a` LF `b"}`.
    assert!(matches!(c.receive_line(b"0"), Inbound::Awaiting));
    assert!(matches!(c.receive_line(b"{\"file_path\":\"a"), Inbound::Deliver { .. }));
    match c.receive_line(b"b\"}") {
        Inbound::Failed { fault, waiters } => {
            assert_eq!(fault, Fault::Framing);
            assert_eq!(waiters, vec![(1, "b")]);
        }
        _ => panic!("expected a framing failure"),
    }
    assert_eq!(c.state(), ChannelState::Failed(Fault::Framing));
}

#[test]
fn cancel_then_late_response_keeps_channel_ready() {
    let mut c: WorkerChannel<&str> = WorkerChannel::new();
    let a = issue(&mut c, b"1", "a");
    let b = issue(&mut c, b"2", "b");
    assert_eq!(c.cancel(a), Some("a"));
    assert_eq!(c.cancel(a), None);
    assert!(matches!(c.receive_line(a.to_string().as_bytes()), Inbound::Awaiting));
    assert!(matches!(c.receive_line(b"late"), Inbound::Discarded));
    assert!(c.is_ready());
    assert_eq!(c.pending_count(), 1);
    // A second response for the same id is unknown.
    assert!(matches!(c.receive_line(a.to_string().as_bytes()), Inbound::Awaiting));
    match c.receive_line(b"again") {
        Inbound::Failed { fault, waiters } => {
            assert_eq!(fault, Fault::UnknownRequest);
            assert_eq!(waiters, vec![(b, "b")]);
        }
        _ => panic!("expected a failure"),
    }
}

#[test]
fn end_of_stream_fails_and_hands_back_waiters() {
    let mut c: WorkerChannel<&str> = WorkerChannel::new();
    issue(&mut c, b"1", "a");
    assert_eq!(c.end_of_stream(), vec![(0, "a")]);
    assert_eq!(c.state(), ChannelState::Failed(Fault::PeerClosed));
    assert_eq!(c.end_of_stream(), vec![]);
    assert_eq!(c.state(), ChannelState::Failed(Fault::PeerClosed));
}

#[test]
fn write_failure_fails_and_hands_back_waiters() {
    let mut c: WorkerChannel<&str> = WorkerChannel::new();
    issue(&mut c, b"1", "a");
    issue(&mut c, b"1", "b");
    assert_eq!(c.write_failed(), vec![(0, "a"), (1, "b")]);
    assert_eq!(c.state(), ChannelState::Failed(Fault::WriteFailed));
    assert_eq!(c.send(b"run_resolver", b"{}", "c"), Err(FarmError::ChannelClosed));
}

#[test]
fn close_is_idempotent() {
    let mut c: WorkerChannel<&str> = WorkerChannel::new();
    issue(&mut c, b"1", "a");
    assert_eq!(c.close(), vec![(0, "a")]);
    assert_eq!(c.state(), ChannelState::Closed);
    assert_eq!(c.close(), vec![]);
    assert_eq!(c.state(), ChannelState::Closed);
}

#[test]
fn ids_never_repeat_after_responses_and_cancels() {
    let mut c: WorkerChannel<u32> = WorkerChannel::new();
    let mut seen = Vec::new();
    for k in 0..50u32 {
        let (id, _) = c.send(b"run_resolver", b"{}", k).unwrap();
        assert!(!seen.contains(&id));
        seen.push(id);
        if k % 3 == 0 {
            c.cancel(id);
        } else if k % 3 == 1 {
            c.receive_line(id.to_string().as_bytes());
            c.receive_line(b"{}");
        }
    }
    assert!(c.is_ready());
}

#[test]
fn ids_follow_the_channel_progression() {
    let mut c: WorkerChannel<u32> = WorkerChannel::with_ids(2, 5);
    let ids: Vec<u64> = (0..3u32).map(|k| c.send(b"run_resolver", b"{}", k).unwrap().0).collect();
    assert_eq!(ids, vec![2, 7, 12]);
    assert_eq!(c.next_id(), 17);
    assert!(c.has_ids_left());
}

#[test]
fn ids_run_out_near_the_top() {
    let mut c: WorkerChannel<u32> = WorkerChannel::with_ids(u64::MAX - 1, u64::MAX);
    assert!(!c.has_ids_left());
    assert_eq!(c.send(b"run_resolver", b"{}", 1), Err(FarmError::IdsExhausted));
    assert!(c.is_ready());
}

#[test]
fn closing_a_failed_channel_keeps_its_fault() {
    let mut c: WorkerChannel<&str> = WorkerChannel::new();
    issue(&mut c, b"1", "a");
    assert_eq!(c.write_failed(), vec![(0, "a")]);
    assert_eq!(c.close(), vec![]);
    assert_eq!(c.state(), ChannelState::Failed(Fault::WriteFailed));
}
