use bullet_hell::hub::{failed_sends, Conns, Hub, HubConn, UpdateReceiver, UpdateSender, WhatHub};

fn channel() -> (UpdateSender, UpdateReceiver) {
    tokio::sync::mpsc::unbounded_channel()
}

#[test]
fn uuid_counts_from_one() {
    let mut h = Hub::new();
    assert_eq!(h.uuid(), 1);
    assert_eq!(h.uuid(), 2);
    assert_eq!(h.uuid(), 3);
}

#[test]
fn new_conn_hands_out_fresh_ids() {
    let mut h = Hub::new();
    let (tx1, _rx1) = channel();
    let (tx2, _rx2) = channel();
    let a = h.new_conn(tx1);
    let b = h.new_conn(tx2);
    assert_eq!(a.id, 1);
    assert_eq!(b.id, 2);
    assert_eq!(h.uuid(), 3);
}

#[test]
fn outbox_has_one_message_per_connection() {
    let mut h = Hub::new();
    let (tx1, mut rx1) = channel();
    let (tx2, rx2) = channel();
    let (tx3, _rx3) = channel();
    let a = h.new_conn(tx1);
    let b = h.new_conn(tx2);
    let c = h.new_conn(tx3);
    h.remove(c.id);
    let mut out = h.outbox(&"hello".to_string());
    out.sort();
    assert_eq!(out, vec![(a.id, "hello".to_string()), (b.id, "hello".to_string())]);
    assert!(h.sender(c.id).is_none());
    // Sending through the stored senders reaches the given channels.
    drop(rx2);
    let mut outcomes = Vec::new();
    for (id, text) in out {
        let tx = h.sender(id).expect("an open connection");
        outcomes.push((id, tx.send(Ok(warp::ws::Message::text(text)))));
    }
    let failed = failed_sends(outcomes);
    assert_eq!(failed.len(), 1);
    assert_eq!(failed[0].0, b.id);
    assert_eq!(failed[0].1.to_string(), "channel closed");
    let got = rx1.try_recv().expect("a message for the open connection");
    assert_eq!(got.unwrap().to_str(), Ok("hello"));
}

#[test]
fn failed_sends_keeps_errors_in_order() {
    let outcomes: Vec<(i64, Result<(), &str>)> = vec![(1, Ok(())), (2, Err("a")), (3, Ok(())), (4, Err("b"))];
    assert_eq!(failed_sends(outcomes), vec![(2, "a"), (4, "b")]);
    let none: Vec<(i64, Result<(), &str>)> = vec![];
    assert!(failed_sends(none).is_empty());
}

#[test]
fn removing_an_unknown_id_is_harmless() {
    let mut h = Hub::new();
    h.remove(10);
    assert!(h.outbox(&"x".to_string()).is_empty());
}

#[test]
fn conn_text_shows_id() {
    let (tx, _rx) = channel();
    let conn = HubConn { id: 5, tx: tx };
    assert_eq!(conn.to_string(), "HubConn[id=5, ...]");
    let (tx, _rx) = channel();
    let conn = HubConn { id: -12, tx: tx };
    assert_eq!(conn.to_string(), "HubConn[id=-12, ...]");
}

#[test]
fn what_hub_and_conns() {
    let w = WhatHub::new();
    w.receive_updates(tokio::sync::mpsc::unbounded_channel().0);
    let (tx, id, _hub) = Conns();
    assert_eq!(id, -1);
    assert!(tx.send("hi".to_string()).is_ok());
}
