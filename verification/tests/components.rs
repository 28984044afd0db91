use broker::client::{Client, Outbox, SendOutcome, OUTBOX_CAPACITY};
use broker::codec::{encode_frame, u32_from_be, u32_to_be};
use broker::message::Message;
use broker::numparse::parse_u32;
use broker::queue::Queue;
use broker::registry::Registry;
use broker::in_progress::InProgressBuffer;

fn msg(id: &str, body: &str) -> Message {
    Message::new(body.as_bytes().to_vec(), id.to_string())
}

#[test]
fn message_holds_id_and_text() {
    let m = msg("m1", "hello");
    assert_eq!(m.id().as_str(), "m1");
    assert_eq!(m.text().as_slice(), b"hello");
    let c = m.clone();
    assert_eq!(c.id().as_str(), "m1");
    assert_eq!(c.text().as_slice(), b"hello");
}

#[test]
fn queue_is_fifo() {
    let mut q = Queue::new(4);
    assert_eq!(q.size(), 0);
    assert!(q.pop_front().is_none());
    q.add(msg("a", "1"));
    q.add(msg("b", "2"));
    q.add(msg("c", "3"));
    assert_eq!(q.size(), 3);
    assert_eq!(q.pop_front().unwrap().id().as_str(), "a");
    assert_eq!(q.pop_front().unwrap().id().as_str(), "b");
    assert_eq!(q.pop_front().unwrap().id().as_str(), "c");
    assert_eq!(q.size(), 0);
}

#[test]
fn queue_grows_past_capacity_hint() {
    let mut q = Queue::new(1);
    q.add(msg("a", "1"));
    q.add(msg("b", "2"));
    assert_eq!(q.size(), 2);
    assert!(q.capacity() >= 2);
}

#[test]
fn queue_shrink_on_empty_default_capacity_is_a_no_op() {
    let mut q = Queue::new(10_000);
    q.shrink_if_sparse(10_000);
    assert_eq!(q.capacity(), 10_000);
    assert_eq!(q.size(), 0);
}

#[test]
fn queue_shrink_halves_sparse_capacity() {
    let mut q = Queue::new(100);
    for i in 0..10 {
        q.add(msg(&format!("m{}", i), "x"));
    }
    q.shrink_if_sparse(5);
    assert_eq!(q.capacity(), 50);
    assert_eq!(q.size(), 10);
    assert_eq!(q.pop_front().unwrap().id().as_str(), "m0");
}

#[test]
fn queue_shrink_respects_min_cap() {
    let mut q = Queue::new(100);
    q.shrink_if_sparse(80);
    assert_eq!(q.capacity(), 80);
}

#[test]
fn outbox_is_fifo_and_bounded() {
    let mut o = Outbox::new(2);
    assert!(matches!(o.try_send(vec![1]), SendOutcome::Accepted));
    assert!(matches!(o.try_send(vec![2]), SendOutcome::Accepted));
    assert!(matches!(o.try_send(vec![3]), SendOutcome::Full));
    assert_eq!(o.len(), 2);
    assert_eq!(o.pop().unwrap(), vec![1]);
    assert_eq!(o.pop().unwrap(), vec![2]);
    assert!(o.pop().is_none());
}

#[test]
fn outbox_refuses_after_close() {
    let mut o = Outbox::new(4);
    assert!(matches!(o.try_send(vec![1]), SendOutcome::Accepted));
    o.close();
    assert!(o.is_closed());
    assert!(matches!(o.try_send(vec![2]), SendOutcome::Closed));
    assert_eq!(o.len(), 1);
}

#[test]
fn client_credit_respects_prefetch() {
    let mut c = Client::new(2);
    assert_eq!(c.prefetch(), 2);
    assert!(c.try_acquire());
    assert!(c.try_acquire());
    assert!(!c.try_acquire());
    assert_eq!(c.in_flight(), 2);
    c.release();
    assert_eq!(c.in_flight(), 1);
    assert!(c.try_acquire());
    assert!(!c.try_acquire());
}

#[test]
fn client_with_zero_prefetch_never_acquires() {
    let mut c = Client::new(0);
    assert!(!c.try_acquire());
    assert_eq!(c.in_flight(), 0);
}

#[test]
fn client_release_saturates_at_zero() {
    let mut c = Client::new(3);
    c.release();
    assert_eq!(c.in_flight(), 0);
}

#[test]
fn client_outbox_has_default_capacity() {
    let mut c = Client::new(1);
    for i in 0..OUTBOX_CAPACITY {
        assert!(matches!(c.try_send(vec![i as u8]), SendOutcome::Accepted));
    }
    assert!(matches!(c.try_send(vec![0]), SendOutcome::Full));
    assert_eq!(c.outbox_len(), OUTBOX_CAPACITY);
}

#[test]
fn build_payload_copies_bytes() {
    let text = vec![1u8, 2, 3];
    assert_eq!(Client::build_payload(&text), vec![1u8, 2, 3]);
}

#[test]
fn be32_round_trips() {
    let b = u32_to_be(0xDEAD_BEEF);
    assert_eq!(b, vec![0xDE, 0xAD, 0xBE, 0xEF]);
    assert_eq!(u32_from_be(b[0], b[1], b[2], b[3]), 0xDEAD_BEEF);
    assert_eq!(u32_to_be(0), vec![0, 0, 0, 0]);
    assert_eq!(u32_from_be(0, 0, 0, 7), 7);
}

#[test]
fn encode_frame_prefixes_length() {
    let payload = b"hello".to_vec();
    let framed = encode_frame(&payload);
    assert_eq!(framed, vec![0u8, 0, 0, 5, b'h', b'e', b'l', b'l', b'o']);
    let empty = encode_frame(&Vec::new());
    assert_eq!(empty, vec![0u8, 0, 0, 0]);
}

#[test]
fn parse_u32_accepts_decimals() {
    assert_eq!(parse_u32("0"), Some(0));
    assert_eq!(parse_u32("42"), Some(42));
    assert_eq!(parse_u32("007"), Some(7));
    assert_eq!(parse_u32("4294967295"), Some(u32::MAX));
}

#[test]
fn parse_u32_rejects_bad_input() {
    assert_eq!(parse_u32(""), None);
    assert_eq!(parse_u32("abc"), None);
    assert_eq!(parse_u32("12x"), None);
    assert_eq!(parse_u32("-1"), None);
    assert_eq!(parse_u32("4294967296"), None);
    assert_eq!(parse_u32("99999999999999999999"), None);
}

#[test]
fn registry_tracks_consumers() {
    let mut r = Registry::new();
    assert_eq!(r.len(), 0);
    assert!(!r.contains(7));
    r.insert(7, Client::new(2));
    assert!(r.contains(7));
    assert_eq!(r.len(), 1);
    assert!(r.try_acquire_at(7));
    assert_eq!(r.in_flight_at(7), Some(1));
    r.release_at(7);
    assert_eq!(r.in_flight_at(7), Some(0));
    assert!(r.remove(7));
    assert!(!r.remove(7));
    assert!(!r.contains(7));
}

#[test]
fn registry_try_send_reaches_the_outbox() {
    let mut r = Registry::new();
    r.insert(3, Client::new(1));
    assert!(matches!(r.try_send_at(3, vec![9]), SendOutcome::Accepted));
    assert_eq!(r.outbox_len_at(3), Some(1));
    assert_eq!(r.pop_outbox_at(3).unwrap(), vec![9]);
    assert_eq!(r.outbox_len_at(3), Some(0));
    r.close_outbox_at(3);
    assert!(matches!(r.try_send_at(3, vec![9]), SendOutcome::Closed));
}

#[test]
fn in_progress_inserts_and_removes() {
    let mut ip = InProgressBuffer::new(16);
    assert_eq!(ip.len(), 0);
    ip.insert(msg("m1", "a"));
    ip.insert(msg("m2", "b"));
    assert_eq!(ip.len(), 2);
    let got = ip.remove("m1").unwrap();
    assert_eq!(got.text().as_slice(), b"a");
    assert!(ip.remove("m1").is_none());
    assert_eq!(ip.len(), 1);
    assert!(ip.capacity() >= 1);
}

#[test]
fn in_progress_insert_overwrites_same_id() {
    let mut ip = InProgressBuffer::new(16);
    ip.insert(msg("m1", "first"));
    ip.insert(msg("m1", "second"));
    assert_eq!(ip.len(), 1);
    assert_eq!(ip.remove("m1").unwrap().text().as_slice(), b"second");
}

#[test]
fn in_progress_shrink_keeps_entries() {
    let mut ip = InProgressBuffer::new(1024);
    ip.insert(msg("m1", "a"));
    ip.shrink_if_sparse(8);
    assert_eq!(ip.len(), 1);
    assert!(ip.remove("m1").is_some());
}
