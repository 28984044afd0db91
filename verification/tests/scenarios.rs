use broker::broker::{classify_frame, Broker, ConnState, Frame, DEFAULT_BUFFER_SIZE};

fn frame(s: &str) -> Vec<u8> {
    s.as_bytes().to_vec()
}

fn send_frame(id: &str, body: &str) -> Vec<u8> {
    frame(&format!("<send refer=\"{}\">{}</send>", id, body))
}

fn consumer(b: &mut Broker, addr: u64, prefetch: u32) -> ConnState {
    let mut conn = ConnState { addr, registered: false };
    b.handle_frame(&mut conn, frame(&format!("<subscribe prefetch=\"{}\"/>", prefetch)));
    assert!(conn.registered);
    conn
}

#[test]
fn classify_recognizes_the_four_elements() {
    assert!(matches!(
        classify_frame(frame("<subscribe prefetch=\"2\"/>")),
        Frame::Subscribe { prefetch: 2 }
    ));
    match classify_frame(send_frame("m1", "hello")) {
        Frame::Send { refer, bytes } => {
            assert_eq!(refer, "m1");
            assert_eq!(bytes, send_frame("m1", "hello"));
        },
        _ => panic!("send frame not recognized"),
    }
    match classify_frame(frame("<ack refer=\"m1\"/>")) {
        Frame::Ack { refer } => assert_eq!(refer, "m1"),
        _ => panic!("ack frame not recognized"),
    }
    assert!(matches!(classify_frame(frame("<pong/>")), Frame::Pong));
    assert!(matches!(classify_frame(frame("<ping/>")), Frame::UnknownTag));
    assert!(matches!(classify_frame(frame("no xml here")), Frame::NoRootTag));
    assert!(matches!(classify_frame(Vec::new()), Frame::NoRootTag));
    assert!(matches!(classify_frame(vec![0xff, 0xfe, 0x00]), Frame::NotUtf8));
    assert!(matches!(classify_frame(frame("<subscribe/>")), Frame::MissingAttribute));
    assert!(matches!(classify_frame(frame("<send>x</send>")), Frame::MissingAttribute));
    assert!(matches!(
        classify_frame(frame("<subscribe prefetch=\"many\"/>")),
        Frame::BadPrefetch
    ));
}

#[test]
fn happy_path_delivers_and_acks_one_message() {
    let mut b = Broker::new(DEFAULT_BUFFER_SIZE);
    let mut consumer_conn = consumer(&mut b, 1, 2);
    let mut producer_conn = ConnState { addr: 2, registered: false };

    let sent = send_frame("m1", "hello");
    b.handle_frame(&mut producer_conn, sent.clone());
    assert_eq!(b.queue_size(), 1);

    b.sender_pass();
    assert_eq!(b.queue_size(), 0);
    assert_eq!(b.in_progress.len(), 1);
    assert_eq!(b.registry.in_flight_at(1), Some(1));

    let delivered = b.registry.pop_outbox_at(1).unwrap();
    assert_eq!(delivered, sent);

    b.handle_frame(&mut consumer_conn, frame("<ack refer=\"m1\"/>"));
    assert_eq!(b.queue_size(), 0);
    assert_eq!(b.in_progress.len(), 0);
    assert_eq!(b.registry.in_flight_at(1), Some(0));
}

#[test]
fn prefetch_cap_holds_back_the_second_message() {
    let mut b = Broker::new(DEFAULT_BUFFER_SIZE);
    let mut consumer_conn = consumer(&mut b, 1, 1);
    let mut producer_conn = ConnState { addr: 2, registered: false };

    b.handle_frame(&mut producer_conn, send_frame("m1", "one"));
    b.handle_frame(&mut producer_conn, send_frame("m2", "two"));

    b.sender_pass();
    assert_eq!(b.registry.outbox_len_at(1), Some(1));
    assert_eq!(b.queue_size(), 1);
    let first = b.registry.pop_outbox_at(1).unwrap();
    assert_eq!(first, send_frame("m1", "one"));

    b.sender_pass();
    assert_eq!(b.registry.outbox_len_at(1), Some(0));

    b.handle_frame(&mut consumer_conn, frame("<ack refer=\"m1\"/>"));
    b.sender_pass();
    let second = b.registry.pop_outbox_at(1).unwrap();
    assert_eq!(second, send_frame("m2", "two"));
    assert_eq!(b.queue_size(), 0);
}

#[test]
fn zero_prefetch_consumer_never_receives() {
    let mut b = Broker::new(DEFAULT_BUFFER_SIZE);
    consumer(&mut b, 1, 0);
    let mut producer_conn = ConnState { addr: 2, registered: false };
    b.handle_frame(&mut producer_conn, send_frame("m1", "x"));
    for _ in 0..5 {
        b.sender_pass();
    }
    assert_eq!(b.registry.outbox_len_at(1), Some(0));
    assert_eq!(b.registry.in_flight_at(1), Some(0));
    assert_eq!(b.queue_size(), 1);
    assert_eq!(b.in_progress.len(), 0);
}

#[test]
fn full_outbox_rolls_back_and_loses_nothing() {
    let mut b = Broker::new(DEFAULT_BUFFER_SIZE);
    consumer(&mut b, 1, 10_000);
    let mut producer_conn = ConnState { addr: 2, registered: false };
    for i in 0..2000 {
        b.handle_frame(&mut producer_conn, send_frame(&format!("m{}", i), "payload"));
    }
    assert_eq!(b.queue_size(), 2000);
    for _ in 0..40 {
        b.sender_pass();
    }
    let buffered = b.registry.outbox_len_at(1).unwrap();
    assert_eq!(buffered, 1024);
    assert_eq!(b.in_progress.len(), 1024);
    assert_eq!(b.queue_size(), 2000 - 1024);
    assert_eq!(b.queue_size() + buffered, 2000);
}

#[test]
fn disconnect_mid_stream_keeps_in_progress_entries() {
    let mut b = Broker::new(DEFAULT_BUFFER_SIZE);
    let consumer_conn = consumer(&mut b, 1, 5);
    let mut producer_conn = ConnState { addr: 2, registered: false };
    for i in 1..=5 {
        b.handle_frame(&mut producer_conn, send_frame(&format!("m{}", i), "x"));
    }
    b.sender_pass();
    assert_eq!(b.in_progress.len(), 5);
    assert_eq!(b.queue_size(), 0);

    let removed = b.conn_closed(&consumer_conn);
    assert!(removed);
    assert!(!b.registry.contains(1));
    assert_eq!(b.in_progress.len(), 5);
}

#[test]
fn closed_writer_rolls_back_and_unregisters() {
    let mut b = Broker::new(DEFAULT_BUFFER_SIZE);
    consumer(&mut b, 1, 5);
    let mut producer_conn = ConnState { addr: 2, registered: false };
    b.handle_frame(&mut producer_conn, send_frame("m1", "x"));
    b.writer_failed(1);
    let removed = b.sender_pass();
    assert_eq!(removed, vec![1]);
    assert!(!b.registry.contains(1));
    assert_eq!(b.queue_size(), 1);
    assert_eq!(b.in_progress.len(), 0);
}

#[test]
fn malformed_frames_are_skipped_and_order_kept() {
    let mut b = Broker::new(DEFAULT_BUFFER_SIZE);
    let mut producer_conn = ConnState { addr: 2, registered: false };
    b.handle_frame(&mut producer_conn, send_frame("m1", "one"));
    b.handle_frame(&mut producer_conn, vec![0xff, 0xfe, 0x01]);
    b.handle_frame(&mut producer_conn, Vec::new());
    b.handle_frame(&mut producer_conn, frame("<mystery/>"));
    b.handle_frame(&mut producer_conn, send_frame("m2", "two"));
    assert!(!producer_conn.registered);
    assert_eq!(b.queue_size(), 2);
    assert_eq!(b.queue.pop_front().unwrap().id().as_str(), "m1");
    assert_eq!(b.queue.pop_front().unwrap().id().as_str(), "m2");
}

#[test]
fn duplicate_subscribe_is_ignored() {
    let mut b = Broker::new(DEFAULT_BUFFER_SIZE);
    let mut conn = consumer(&mut b, 1, 2);
    b.handle_frame(&mut conn, frame("<subscribe prefetch=\"9\"/>"));
    assert!(b.registry.try_acquire_at(1));
    assert!(b.registry.try_acquire_at(1));
    assert!(!b.registry.try_acquire_at(1));
}

#[test]
fn ack_of_unknown_refer_releases_no_credit() {
    let mut b = Broker::new(DEFAULT_BUFFER_SIZE);
    let mut conn = consumer(&mut b, 1, 2);
    assert!(b.registry.try_acquire_at(1));
    b.handle_frame(&mut conn, frame("<ack refer=\"ghost\"/>"));
    assert_eq!(b.registry.in_flight_at(1), Some(1));
    assert_eq!(b.in_progress.len(), 0);
}

#[test]
fn pong_is_a_no_op() {
    let mut b = Broker::new(DEFAULT_BUFFER_SIZE);
    let mut conn = ConnState { addr: 1, registered: false };
    b.handle_frame(&mut conn, frame("<pong/>"));
    assert!(!conn.registered);
    assert_eq!(b.queue_size(), 0);
}

#[test]
fn admin_sees_the_queue_size() {
    let mut b = Broker::new(DEFAULT_BUFFER_SIZE);
    let mut producer_conn = ConnState { addr: 2, registered: false };
    for i in 0..7 {
        b.handle_frame(&mut producer_conn, send_frame(&format!("m{}", i), "x"));
    }
    assert_eq!(b.queue_size(), 7);
}

#[test]
fn maintenance_on_empty_queue_is_a_no_op() {
    let mut b = Broker::new(DEFAULT_BUFFER_SIZE);
    b.maintenance_tick(DEFAULT_BUFFER_SIZE);
    assert_eq!(b.queue_size(), 0);
    assert_eq!(b.queue.capacity(), DEFAULT_BUFFER_SIZE);
    assert_eq!(b.in_progress.len(), 0);
}

#[test]
fn sends_and_acks_drain_both_containers() {
    let mut b = Broker::new(DEFAULT_BUFFER_SIZE);
    let mut consumer_conn = consumer(&mut b, 1, 10);
    let mut producer_conn = ConnState { addr: 2, registered: false };
    for i in 0..5 {
        b.handle_frame(&mut producer_conn, send_frame(&format!("m{}", i), "x"));
    }
    b.sender_pass();
    assert_eq!(b.queue_size(), 0);
    assert_eq!(b.in_progress.len(), 5);
    for i in 0..5 {
        b.handle_frame(&mut consumer_conn, frame(&format!("<ack refer=\"m{}\"/>", i)));
    }
    assert_eq!(b.queue_size(), 0);
    assert_eq!(b.in_progress.len(), 0);
    assert_eq!(b.registry.in_flight_at(1), Some(0));
}
