use bandcomic_helper::transfer::{RecvFrontier, WindowedSender};
use serde_json::Value;

#[test]
fn pump_fills_window_then_waits() {
    let mut s = WindowedSender::new(3);
    assert_eq!(s.pump(10), vec![0, 1, 2]);
    assert_eq!(s.pump(10), Vec::<usize>::new());
    assert_eq!(s.base(), 0);
}

#[test]
fn zero_window_acts_as_one() {
    let mut s = WindowedSender::new(0);
    assert_eq!(s.pump(5), vec![0]);
    assert_eq!(s.pump(5), Vec::<usize>::new());
}

#[test]
fn pump_stops_at_total() {
    let mut s = WindowedSender::new(8);
    assert_eq!(s.pump(3), vec![0, 1, 2]);
}

#[test]
fn advancing_ack_slides_window() {
    let mut s = WindowedSender::new(3);
    s.pump(10);
    let (sends, done) = s.on_ack(1, 10);
    assert_eq!(sends, vec![3]);
    assert!(!done);
    assert_eq!(s.base(), 1);
}

#[test]
fn stalled_ack_retransmits_once() {
    let mut s = WindowedSender::new(3);
    s.pump(10);
    assert_eq!(s.on_ack(1, 10).0, vec![3]);
    let (again, done) = s.on_ack(1, 10);
    assert_eq!(again, vec![1, 2, 3]);
    assert!(!done);
    let (quiet, _) = s.on_ack(1, 10);
    assert_eq!(quiet, Vec::<usize>::new());
}

#[test]
fn timeout_resends_whole_window() {
    let mut s = WindowedSender::new(2);
    s.pump(6);
    assert_eq!(s.go_back_n(6), vec![0, 1]);
    // the stall is marked: a duplicate ACK now resends nothing
    assert_eq!(s.on_ack(0, 6).0, Vec::<usize>::new());
}

#[test]
fn timeout_with_nothing_in_flight_sends_nothing() {
    let mut s = WindowedSender::new(2);
    assert_eq!(s.go_back_n(6), Vec::<usize>::new());
}

#[test]
fn ack_beyond_total_is_clamped_and_finishes() {
    let mut s = WindowedSender::new(4);
    s.pump(3);
    let (sends, done) = s.on_ack(99, 3);
    assert!(sends.is_empty());
    assert!(done);
    assert_eq!(s.base(), 3);
}

#[test]
fn frontier_delivers_in_order() {
    let mut r = RecvFrontier::new();
    let (ready, next, dup) = r.insert(1, Value::from("b"));
    assert!(ready.is_empty());
    assert_eq!(next, 0);
    assert!(!dup);
    let (ready, next, dup) = r.insert(0, Value::from("a"));
    assert_eq!(ready, vec![Value::from("a"), Value::from("b")]);
    assert_eq!(next, 2);
    assert!(!dup);
}

#[test]
fn frontier_reports_duplicates() {
    let mut r = RecvFrontier::new();
    r.insert(0, Value::from(1));
    let (ready, next, dup) = r.insert(0, Value::from(1));
    assert!(ready.is_empty());
    assert_eq!(next, 1);
    assert!(dup);
    r.insert(3, Value::from(3));
    let (ready, next, dup) = r.insert(3, Value::from(3));
    assert!(ready.is_empty());
    assert_eq!(next, 1);
    assert!(dup);
}
