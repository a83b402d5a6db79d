use termfold::ipc::{
    HEADER_SIZE, MAX_FRAME_SIZE, MAX_QUEUE_BYTES, Message, OutboundQueue, PREFIX_SIZE,
    PROTOCOL_VERSION, ProtocolError, decode, decode_size, encode, read_message, valid_size,
    write_message, body_length,
};

#[test]
fn messages_round_trip_and_invalid_frames_are_rejected() {
    let messages = [
        Message::Attach {
            columns: 80,
            rows: 24,
            profile: 5,
            color: 2,
        },
        Message::Input(vec![0, 1, 255]),
        Message::Resize {
            columns: 120,
            rows: 40,
        },
        Message::Screen(b"screen".to_vec()),
        Message::Error("failed".into()),
        Message::StatusRequest,
        Message::Status {
            pid: 1234,
            attached_clients: 2,
        },
        Message::Kill,
        Message::Terminating,
        Message::Detach,
    ];

    for message in messages {
        let frame = encode(&message).unwrap();
        assert!(frame.len() <= MAX_FRAME_SIZE);
        assert_eq!(read_message(&frame).unwrap(), Some(message));
    }

    let mut wrong_version = encode(&Message::Detach).unwrap();
    wrong_version[PREFIX_SIZE] += 1;
    assert!(matches!(
        read_message(&wrong_version),
        Err(ProtocolError::UnsupportedVersion(_))
    ));
    assert!(matches!(
        encode(&Message::Screen(vec![0; MAX_FRAME_SIZE])),
        Err(ProtocolError::FrameTooLarge)
    ));
    assert!(matches!(
        read_message(&[0, 0, 0, 1, PROTOCOL_VERSION]),
        Err(ProtocolError::Malformed(_))
    ));
}

#[test]
fn client_queue_limits_are_independent() {
    let message = Message::Screen(vec![0; MAX_FRAME_SIZE - PREFIX_SIZE - HEADER_SIZE]);
    let mut slow_client = OutboundQueue::default();
    for _ in 0..4 {
        slow_client.push(&message).unwrap();
    }
    assert_eq!(slow_client.bytes(), MAX_QUEUE_BYTES);
    assert!(matches!(
        slow_client.push(&Message::Detach),
        Err(ProtocolError::QueueFull)
    ));

    let mut other_client = OutboundQueue::default();
    other_client.push(&Message::Detach).unwrap();
    assert_eq!(other_client.len(), 1);
}

#[test]
fn frame_layout_is_big_endian_length_then_header() {
    let frame = encode(&Message::Resize {
        columns: 0x0102,
        rows: 0x0304,
    })
    .unwrap();
    assert_eq!(frame, vec![0, 0, 0, 6, PROTOCOL_VERSION, 4, 1, 2, 3, 4]);
    let status = encode(&Message::Status {
        pid: 0x01020304,
        attached_clients: 7,
    })
    .unwrap();
    assert_eq!(&status[6..], &[1, 2, 3, 4, 0, 0, 0, 7]);
}

#[test]
fn invalid_sizes_and_payloads_are_malformed() {
    assert!(matches!(
        encode(&Message::Resize { columns: 0, rows: 3 }),
        Err(ProtocolError::Malformed("terminal size must be non-zero"))
    ));
    assert!(valid_size(1, 1).is_ok());
    assert_eq!(decode_size(&[0, 80, 0, 24]).unwrap(), (80, 24));
    assert!(matches!(
        decode_size(&[0, 80, 0]),
        Err(ProtocolError::Malformed("terminal size must contain four bytes"))
    ));
    assert!(matches!(
        decode(&[PROTOCOL_VERSION, 2, 9]),
        Err(ProtocolError::Malformed("message has an unexpected payload"))
    ));
    assert!(matches!(
        decode(&[PROTOCOL_VERSION, 7, 0xff]),
        Err(ProtocolError::Malformed("error message is not UTF-8"))
    ));
    assert!(matches!(
        decode(&[PROTOCOL_VERSION, 12]),
        Err(ProtocolError::UnsupportedMessage(12))
    ));
    assert!(matches!(read_message(&[0, 0]), Err(ProtocolError::Io(_))));
    assert!(matches!(read_message(&[]), Ok(None)));
    assert!(matches!(
        read_message(&[0, 0x10, 0, 0, PROTOCOL_VERSION, 2]),
        Err(ProtocolError::FrameTooLarge)
    ));
}

#[test]
fn queue_pops_in_order_and_tracks_bytes() {
    let mut queue = OutboundQueue::default();
    queue.push(&Message::Kill).unwrap();
    queue.push(&Message::Input(vec![1, 2, 3])).unwrap();
    assert_eq!(queue.bytes(), 6 + 9);
    assert_eq!(queue.front().unwrap().len(), 6);
    queue.pop_written();
    assert_eq!(queue.bytes(), 9);
    assert_eq!(queue.len(), 1);
    queue.pop_written();
    assert!(queue.is_empty());
}

#[test]
fn written_messages_are_their_frames() {
    let mut out = vec![9];
    write_message(&mut out, &Message::Kill).unwrap();
    let mut expected = vec![9];
    expected.extend(encode(&Message::Kill).unwrap());
    assert_eq!(out, expected);
    let mut untouched = Vec::new();
    assert!(write_message(&mut untouched, &Message::Resize { columns: 0, rows: 1 }).is_err());
    assert!(untouched.is_empty());
}

#[test]
fn queued_frames_are_written_in_order() {
    let mut queue = OutboundQueue::default();
    queue.push(&Message::Detach).unwrap();
    queue.push(&Message::Kill).unwrap();
    let mut out = Vec::new();
    assert_eq!(queue.write_next(&mut out).unwrap(), true);
    assert_eq!(out, encode(&Message::Detach).unwrap());
    assert_eq!(queue.len(), 1);
    assert_eq!(queue.write_next(&mut out).unwrap(), true);
    assert_eq!(queue.write_next(&mut out).unwrap(), false);
    assert!(queue.is_empty());
    assert_eq!(queue.bytes(), 0);
}

#[test]
fn length_prefixes_announce_readable_bodies() {
    assert_eq!(body_length(&[0, 0, 0, 2]), Some(2));
    assert_eq!(body_length(&[0, 0, 0, 1]), None);
    assert_eq!(body_length(&[0, 0x10, 0, 0]), None);
    assert_eq!(body_length(&[0, 0x0f, 0xff, 0xfc]), Some(MAX_FRAME_SIZE - PREFIX_SIZE));
}

#[test]
fn the_queue_holds_what_was_pushed_less_what_was_written() {
    let mut queue = OutboundQueue::default();
    let mut out = Vec::new();
    queue.push(&Message::Kill).unwrap();
    queue.push(&Message::Detach).unwrap();
    queue.push(&Message::Input(vec![7])).unwrap();
    assert!(queue.write_next(&mut out).unwrap());
    assert_eq!(queue.len(), 2);
    assert!(queue.write_next(&mut out).unwrap());
    assert!(queue.write_next(&mut out).unwrap());
    assert!(!queue.write_next(&mut out).unwrap());
    assert_eq!(queue.len(), 0);
    assert_eq!(queue.bytes(), 0);
}
