use std::collections::HashSet;
use worker_farm::channel::{ChannelState, Fault, Inbound};
use worker_farm::error::FarmError;
use worker_farm::farm::{broadcast_outcome, BroadcastSlot, Farm};

fn answer(farm: &mut Farm<u32>, w: usize, id: u64, payload: &[u8]) -> Inbound<u32> {
    assert!(matches!(farm.receive_line(w, id.to_string().as_bytes()), Inbound::Awaiting));
    farm.receive_line(w, payload)
}

#[test]
fn round_robin_spreads_evenly_over_four_workers() {
    let mut farm: Farm<u32> = Farm::new(4);
    let mut per_worker = [0u32; 4];
    let mut issued = Vec::new();
    for k in 0..100u32 {
        let d = farm.send_one(b"run_resolver", b"{}", k).unwrap();
        per_worker[d.worker] += 1;
        issued.push((d.worker, d.request_id, k));
    }
    assert_eq!(per_worker, [25, 25, 25, 25]);
    for (w, id, k) in issued {
        match answer(&mut farm, w, id, b"{\"file_path\":\"x\"}") {
            Inbound::Deliver { waiter, .. } => assert_eq!(waiter, k),
            _ => panic!("expected a delivery"),
        }
    }
}

#[test]
fn round_robin_visits_each_worker_in_any_window() {
    let mut farm: Farm<u32> = Farm::new(3);
    let picks: Vec<usize> =
        (0..9u32).map(|k| farm.send_one(b"run_resolver", b"{}", k).unwrap().worker).collect();
    assert_eq!(picks, vec![0, 1, 2, 0, 1, 2, 0, 1, 2]);
    for start in 0..=6 {
        let mut window = picks[start..start + 3].to_vec();
        window.sort();
        assert_eq!(window, vec![0, 1, 2]);
    }
}

#[test]
fn closed_worker_is_skipped_and_broadcast_reports_it() {
    let mut farm: Farm<u32> = Farm::new(2);
    let d = farm.send_one(b"run_resolver", b"{}", 1).unwrap();
    assert_eq!(d.worker, 0);
    // Worker 0's socket closes mid-flight.
    assert_eq!(farm.end_of_stream(0), vec![(d.request_id, 1)]);
    assert!(!farm.is_ready(0));
    for k in 0..4u32 {
        assert_eq!(farm.send_one(b"run_resolver", b"{}", k).unwrap().worker, 1);
    }
    let slots = farm.send_all(b"load_resolver", b"{}", vec![10, 11]).unwrap();
    assert_eq!(slots.len(), 2);
    let mut ok = Vec::new();
    match &slots[0] {
        BroadcastSlot::Refused { error, waiter } => {
            assert_eq!(*error, FarmError::ChannelClosed);
            assert_eq!(*waiter, 10);
            ok.push(false);
        }
        _ => panic!("worker 0 has failed"),
    }
    match &slots[1] {
        BroadcastSlot::Sent { request_id, frame } => {
            assert_eq!(*request_id, 9);
            assert_eq!(frame, &b"9\nload_resolver\n{}\n".to_vec());
            ok.push(true);
        }
        _ => panic!("worker 1 is ready"),
    }
    assert_eq!(broadcast_outcome(&ok), Err(FarmError::BroadcastPartial(vec![0])));
}

#[test]
fn no_healthy_worker_when_all_failed() {
    let mut farm: Farm<u32> = Farm::new(2);
    farm.end_of_stream(0);
    farm.write_failed(1);
    assert!(matches!(farm.send_one(b"run_resolver", b"{}", 1), Err(FarmError::NoHealthyWorker)));
    let empty: Farm<u32> = Farm::new(0);
    let mut empty = empty;
    assert!(matches!(empty.send_one(b"run_resolver", b"{}", 1), Err(FarmError::NoHealthyWorker)));
}

#[test]
fn unknown_response_fails_only_that_worker() {
    let mut farm: Farm<u32> = Farm::new(3);
    let d0 = farm.send_one(b"run_resolver", b"{}", 0).unwrap();
    assert_eq!(d0.worker, 0);
    match answer(&mut farm, 0, 999, b"{}") {
        Inbound::Failed { waiters, .. } => assert_eq!(waiters, vec![(d0.request_id, 0)]),
        _ => panic!("expected a failure"),
    }
    assert!(!farm.is_ready(0));
    assert!(farm.is_ready(1));
    assert!(farm.is_ready(2));
    let picks: Vec<usize> =
        (0..4u32).map(|k| farm.send_one(b"run_resolver", b"{}", k).unwrap().worker).collect();
    assert_eq!(picks, vec![1, 2, 1, 2]);
}

#[test]
fn resolver_response_is_delivered_as_sent() {
    let mut farm: Farm<u32> = Farm::new(2);
    let d = farm
        .send_one(b"run_resolver", b"{\"from_path\":\"/tmp\",\"specifier\":\"hi\"}", 5)
        .unwrap();
    match answer(&mut farm, d.worker, d.request_id, b"{\"file_path\":\"/tmp/hi.js\"}") {
        Inbound::Deliver { waiter, payload, .. } => {
            assert_eq!(waiter, 5);
            let value: serde_json::Value = serde_json::from_slice(&payload).unwrap();
            assert_eq!(value["file_path"], serde_json::Value::String("/tmp/hi.js".to_string()));
        }
        _ => panic!("expected a delivery"),
    }
}

#[test]
fn shutdown_hands_back_every_waiter_once() {
    let mut farm: Farm<u32> = Farm::new(2);
    for k in 0..5u32 {
        farm.send_one(b"run_resolver", b"{}", k).unwrap();
    }
    let left = farm.shutdown();
    assert_eq!(left, vec![vec![(0, 0), (2, 2), (4, 4)], vec![(1, 1), (3, 3)]]);
    assert!(!farm.is_ready(0) && !farm.is_ready(1));
    assert_eq!(farm.shutdown(), vec![vec![], vec![]]);
    assert!(matches!(farm.send_one(b"run_resolver", b"{}", 9), Err(FarmError::Shutdown)));
    assert!(matches!(farm.send_all(b"load_resolver", b"{}", vec![1, 2]), Err(FarmError::Shutdown)));
}

#[test]
fn two_broadcasts_reach_each_worker_in_order() {
    let mut farm: Farm<u32> = Farm::new(3);
    let first = farm.send_all(b"load_resolver", b"{\"specifier\":\"p\"}", vec![0, 1, 2]).unwrap();
    let second = farm.send_all(b"load_resolver", b"{\"specifier\":\"p\"}", vec![3, 4, 5]).unwrap();
    for w in 0..3 {
        match (&first[w], &second[w]) {
            (
                BroadcastSlot::Sent { request_id: a, frame: fa },
                BroadcastSlot::Sent { request_id: b, frame: fb },
            ) => {
                assert!(a < b);
                assert_eq!(fa, &format!("{}\nload_resolver\n{{\"specifier\":\"p\"}}\n", a).into_bytes());
                assert_eq!(fb, &format!("{}\nload_resolver\n{{\"specifier\":\"p\"}}\n", b).into_bytes());
            }
            _ => panic!("every worker is ready"),
        }
    }
}

#[test]
fn canceled_request_response_is_discarded() {
    let mut farm: Farm<u32> = Farm::new(1);
    let d = farm.send_one(b"run_resolver", b"{}", 1).unwrap();
    assert_eq!(farm.cancel(0, d.request_id), Some(1));
    assert!(matches!(answer(&mut farm, 0, d.request_id, b"{}"), Inbound::Discarded));
    assert!(farm.is_ready(0));
}

#[test]
fn serialization_error_leaves_cursor_in_place() {
    let mut farm: Farm<u32> = Farm::new(2);
    assert!(matches!(farm.send_one(b"run_resolver", b"a\nb", 1), Err(FarmError::Serialization)));
    assert_eq!(farm.send_one(b"run_resolver", b"{}", 1).unwrap().worker, 0);
    assert!(matches!(farm.send_all(b"load_resolver", b"\n", vec![1, 2]), Err(FarmError::Serialization)));
}

#[test]
fn broadcast_outcome_lists_failed_ordinals() {
    assert_eq!(broadcast_outcome(&vec![true, true, true]), Ok(()));
    assert_eq!(broadcast_outcome(&vec![]), Ok(()));
    assert_eq!(broadcast_outcome(&vec![false, true, false]), Err(FarmError::BroadcastPartial(vec![0, 2])));
    assert_eq!(broadcast_outcome(&vec![false]), Err(FarmError::BroadcastPartial(vec![0])));
}

#[test]
fn shutdown_keeps_a_failed_worker_failed() {
    let mut farm: Farm<u32> = Farm::new(2);
    farm.send_one(b"run_resolver", b"{}", 1).unwrap();
    assert_eq!(farm.end_of_stream(0), vec![(0, 1)]);
    let left = farm.shutdown();
    assert_eq!(left, vec![vec![], vec![]]);
    assert_eq!(farm.worker_state(0), ChannelState::Failed(Fault::PeerClosed));
    assert_eq!(farm.worker_state(1), ChannelState::Closed);
}

#[test]
fn request_ids_are_unique_across_the_farm() {
    let mut farm: Farm<u32> = Farm::new(3);
    let mut ids = HashSet::new();
    for k in 0..30u32 {
        let d = farm.send_one(b"run_resolver", b"{}", k).unwrap();
        assert_eq!(d.request_id % 3, d.worker as u64);
        assert!(ids.insert(d.request_id));
    }
    let slots = farm.send_all(b"load_resolver", b"{}", vec![0, 1, 2]).unwrap();
    for slot in slots {
        match slot {
            BroadcastSlot::Sent { request_id, .. } => assert!(ids.insert(request_id)),
            BroadcastSlot::Refused { .. } => panic!("every worker is ready"),
        }
    }
}
