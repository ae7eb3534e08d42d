//! End-to-end tests of the relay engine: codec, registry, relay fan-out,
//! departure notification, and session-id generation.

use possum_relay::client::Client;
use possum_relay::codec::{decode_frame, encode_departure, stamp_with_sender, Frame};
use possum_relay::ids::fresh_session_id;
use possum_relay::registry::Registry;

fn make_id(c: u8) -> Vec<u8> {
    vec![c; 36]
}

fn data_frame(payload: &[u8]) -> Vec<u8> {
    let mut f = vec![0u8, 0, 0, 0];
    f.extend_from_slice(payload);
    f
}

#[test]
fn stamp_inserts_sender_after_tag() {
    let id = make_id(b'a');
    let frame = data_frame(&[9, 8, 7]);
    let stamped = stamp_with_sender(&frame, &id).unwrap();
    assert_eq!(stamped.len(), 4 + 36 + 3);
    assert_eq!(&stamped[0..4], &[0, 0, 0, 0]);
    assert_eq!(&stamped[4..40], id.as_slice());
    assert_eq!(&stamped[40..], &[9, 8, 7]);
}

#[test]
fn stamp_rejects_short_frame_and_bad_id() {
    let id = make_id(b'a');
    assert!(stamp_with_sender(&vec![1, 2, 3], &id).is_none());
    assert!(stamp_with_sender(&vec![], &id).is_none());
    let short_id = vec![b'a'; 35];
    assert!(stamp_with_sender(&data_frame(&[1]), &short_id).is_none());
    let long_id = vec![b'a'; 37];
    assert!(stamp_with_sender(&data_frame(&[1]), &long_id).is_none());
}

#[test]
fn stamp_accepts_bare_tag() {
    let id = make_id(b'a');
    let stamped = stamp_with_sender(&vec![5, 0, 0, 0], &id).unwrap();
    assert_eq!(stamped.len(), 40);
    assert_eq!(&stamped[0..4], &[5, 0, 0, 0]);
    assert_eq!(&stamped[4..40], id.as_slice());
}

#[test]
fn departure_frame_exact_bytes() {
    let id = make_id(b'x');
    let frame = encode_departure(&id).unwrap();
    assert_eq!(frame.len(), 40);
    assert_eq!(&frame[0..4], &[2, 0, 0, 0]);
    assert_eq!(&frame[4..40], id.as_slice());
}

#[test]
fn departure_rejects_bad_id_length() {
    assert!(encode_departure(&vec![b'x'; 35]).is_none());
    assert!(encode_departure(&vec![b'x'; 37]).is_none());
    assert!(encode_departure(&vec![]).is_none());
}

#[test]
fn departure_round_trip_recovers_id() {
    let id = fresh_session_id();
    let frame = encode_departure(&id).unwrap();
    match decode_frame(&frame) {
        Some(Frame::Departure { id: decoded }) => {
            assert_eq!(decoded, id);
            assert_eq!(decoded.len(), 36);
        }
        _ => panic!("departure frame did not decode as a departure"),
    }
}

#[test]
fn decode_rejects_malformed_frames() {
    // shorter than one complete tag
    assert!(decode_frame(&vec![]).is_none());
    assert!(decode_frame(&vec![0, 0, 0]).is_none());
    // data frame without a complete sender id
    assert!(decode_frame(&vec![0, 0, 0, 0, 1, 2]).is_none());
    // departure frame with a wrong length
    let mut too_long = encode_departure(&make_id(b'x')).unwrap();
    too_long.push(0);
    assert!(decode_frame(&too_long).is_none());
    // unknown tag
    let mut unknown = vec![7, 0, 0, 0];
    unknown.extend_from_slice(&make_id(b'x'));
    assert!(decode_frame(&unknown).is_none());
}

#[test]
fn decode_stamped_data_attributes_sender() {
    let id = make_id(b'q');
    let frame = data_frame(&[1, 2, 3, 4]);
    let stamped = stamp_with_sender(&frame, &id).unwrap();
    match decode_frame(&stamped) {
        Some(Frame::Data { sender, payload }) => {
            assert_eq!(sender, id);
            assert_eq!(payload, vec![1, 2, 3, 4]);
        }
        _ => panic!("stamped data frame did not decode as data"),
    }
}

#[test]
fn relay_reaches_every_peer_but_not_sender() {
    let (ida, idb, idc) = (make_id(b'a'), make_id(b'b'), make_id(b'c'));
    let mut reg = Registry::new();
    reg.register(ida.clone());
    reg.register(idb.clone());
    reg.register(idc.clone());

    let frame = data_frame(&[42]);
    reg.relay_inbound(&ida, &frame);

    let expected = stamp_with_sender(&frame, &ida).unwrap();
    let got_b = reg.drain_mailbox(&idb);
    let got_c = reg.drain_mailbox(&idc);
    let got_a = reg.drain_mailbox(&ida);
    assert_eq!(got_b, vec![expected.clone()]);
    assert_eq!(got_c, vec![expected]);
    assert!(got_a.is_empty());
}

#[test]
fn relayed_frames_attribute_sender_exactly() {
    let (ida, idb) = (make_id(b'a'), make_id(b'b'));
    let mut reg = Registry::new();
    reg.register(ida.clone());
    reg.register(idb.clone());

    reg.relay_inbound(&ida, &data_frame(&[1]));
    reg.relay_inbound(&idb, &data_frame(&[2]));

    for frame in reg.drain_mailbox(&idb) {
        assert_eq!(&frame[4..40], ida.as_slice());
    }
    for frame in reg.drain_mailbox(&ida) {
        assert_eq!(&frame[4..40], idb.as_slice());
    }
}

#[test]
fn malformed_inbound_changes_nothing() {
    let (ida, idb) = (make_id(b'a'), make_id(b'b'));
    let mut reg = Registry::new();
    reg.register(ida.clone());
    reg.register(idb.clone());

    // three bytes: no complete type tag, dropped without effect
    reg.relay_inbound(&ida, &vec![1, 2, 3]);
    assert!(reg.drain_mailbox(&idb).is_empty());
    assert!(reg.drain_mailbox(&ida).is_empty());
}

#[test]
fn mailbox_preserves_fifo_order() {
    let (ida, idb) = (make_id(b'a'), make_id(b'b'));
    let mut reg = Registry::new();
    reg.register(ida.clone());
    reg.register(idb.clone());

    let f1 = data_frame(&[1]);
    let f2 = data_frame(&[2]);
    let f3 = data_frame(&[3]);
    reg.relay_inbound(&ida, &f1);
    reg.relay_inbound(&ida, &f2);
    reg.relay_inbound(&ida, &f3);

    let got = reg.drain_mailbox(&idb);
    assert_eq!(
        got,
        vec![
            stamp_with_sender(&f1, &ida).unwrap(),
            stamp_with_sender(&f2, &ida).unwrap(),
            stamp_with_sender(&f3, &ida).unwrap(),
        ]
    );
    // a drain empties the mailbox entirely
    assert!(reg.drain_mailbox(&idb).is_empty());
}

#[test]
fn process_inbound_returns_pending_not_own_frame() {
    let (ida, idb) = (make_id(b'a'), make_id(b'b'));
    let mut reg = Registry::new();
    reg.register(ida.clone());
    reg.register(idb.clone());

    let fa = data_frame(&[10]);
    let out_a = reg.process_inbound(&ida, &fa);
    // nothing was pending for the sender; its own frame is never delivered back
    assert!(out_a.is_empty());

    let fb = data_frame(&[20]);
    let out_b = reg.process_inbound(&idb, &fb);
    // the peer's pending copy of fa is delivered, not fb's own copy
    assert_eq!(out_b, vec![stamp_with_sender(&fa, &ida).unwrap()]);
}

#[test]
fn departure_notifies_each_remaining_peer_exactly_once() {
    let (ida, idb, idc, idd) = (make_id(b'a'), make_id(b'b'), make_id(b'c'), make_id(b'd'));
    let mut reg = Registry::new();
    reg.register(ida.clone());
    reg.register(idb.clone());
    reg.register(idc.clone());
    reg.register(idd.clone());

    let removed = reg.depart(&ida);
    assert!(removed.is_some());

    let notice = encode_departure(&ida).unwrap();
    for id in [&idb, &idc, &idd] {
        let got = reg.drain_mailbox(id);
        assert_eq!(got, vec![notice.clone()]);
    }
    // the departed session is gone: nothing pending, nothing registered
    assert!(reg.drain_mailbox(&ida).is_empty());
    assert!(!reg.contains(&ida));
}

#[test]
fn departed_session_mailbox_is_discarded() {
    let (ida, idb) = (make_id(b'a'), make_id(b'b'));
    let mut reg = Registry::new();
    reg.register(ida.clone());
    reg.register(idb.clone());

    reg.relay_inbound(&idb, &data_frame(&[5]));
    // ida departs with a pending frame: it comes back with the record,
    // and is never delivered through the registry again
    let mut removed = reg.depart(&ida).unwrap();
    let pending = removed.take_outbound_messages();
    assert_eq!(pending.len(), 1);
    assert!(reg.drain_mailbox(&ida).is_empty());
}

#[test]
fn depart_absent_id_is_noop_removal() {
    let (ida, idb) = (make_id(b'a'), make_id(b'b'));
    let mut reg = Registry::new();
    reg.register(idb.clone());

    // RegistryMiss: departing an id that was never registered removes
    // nothing, but remaining sessions are still informed best-effort
    let removed = reg.depart(&ida);
    assert!(removed.is_none());
    assert_eq!(reg.drain_mailbox(&idb), vec![encode_departure(&ida).unwrap()]);
}

#[test]
fn unregister_twice_is_noop() {
    let ida = make_id(b'a');
    let mut reg = Registry::new();
    reg.register(ida.clone());
    assert!(reg.unregister(&ida).is_some());
    assert!(reg.unregister(&ida).is_none());
}

#[test]
fn registry_tracks_exactly_the_open_sessions() {
    let (ida, idb, idc) = (make_id(b'a'), make_id(b'b'), make_id(b'c'));
    let mut reg = Registry::new();
    assert!(!reg.contains(&ida));
    reg.register(ida.clone());
    reg.register(idb.clone());
    assert!(reg.contains(&ida) && reg.contains(&idb) && !reg.contains(&idc));
    reg.depart(&ida);
    assert!(!reg.contains(&ida) && reg.contains(&idb));
    reg.register(idc.clone());
    assert!(reg.contains(&idc));
    reg.depart(&idb);
    reg.depart(&idc);
    assert!(!reg.contains(&ida) && !reg.contains(&idb) && !reg.contains(&idc));
}

#[test]
fn client_mailbox_operations() {
    let ida = make_id(b'a');
    let idb = make_id(b'b');
    let mut c = Client::new(ida);
    c.receive_inbound_message(&data_frame(&[1]));
    c.inform_of_departed_peer(&idb);
    // a malformed peer id aborts only that notification
    c.inform_of_departed_peer(&vec![b'z'; 35]);
    let out = c.take_outbound_messages();
    assert_eq!(out.len(), 2);
    assert_eq!(out[0], data_frame(&[1]));
    assert_eq!(out[1], encode_departure(&idb).unwrap());
    assert!(c.take_outbound_messages().is_empty());
}

#[test]
fn fresh_ids_have_canonical_shape() {
    let id = fresh_session_id();
    assert_eq!(id.len(), 36);
    for (i, b) in id.iter().enumerate() {
        if i == 8 || i == 13 || i == 18 || i == 23 {
            assert_eq!(*b, b'-');
        } else {
            assert!(b.is_ascii_hexdigit() && !b.is_ascii_uppercase());
        }
    }
    // two draws almost surely differ; both must round-trip through the codec
    let other = fresh_session_id();
    assert_ne!(id, other);
    match decode_frame(&encode_departure(&id).unwrap()) {
        Some(Frame::Departure { id: d }) => assert_eq!(d, id),
        _ => panic!("fresh id failed the departure round trip"),
    }
}
