use chat_hub::notification::Notification;
use chat_hub::session::chunk_payload;
use chat_hub::session::session_drain;
use chat_hub::session::session_open;
use chat_hub::session::session_step;
use chat_hub::session::ReadEvent;
use chat_hub::session::SessionState;

#[test]
fn open_announces_connection_first() {
    let (state, note) = session_open(5, 50);
    assert_eq!(state, SessionState::Active);
    match note {
        Notification::ClientConnection(addr, handle) => {
            assert_eq!(addr, 5);
            assert_eq!(handle, 50);
        }
        _ => panic!("expected a connection notification"),
    }
}

#[test]
fn data_read_becomes_one_message_with_the_bytes_of_that_read() {
    let (state, note) = session_step(SessionState::Active, 5, ReadEvent::Data(b"abc".to_vec()));
    assert_eq!(state, SessionState::Active);
    match note {
        Some(Notification::NewMessage(m)) => {
            assert_eq!(m.author, 5);
            assert_eq!(m.msg, b"abc".to_vec());
            assert!(m.date >= 0);
        }
        _ => panic!("expected a message notification"),
    }
}

#[test]
fn zero_byte_read_produces_exactly_one_disconnect_and_nothing_after() {
    let events = vec![
        ReadEvent::Data(b"one".to_vec()),
        ReadEvent::Eof,
        ReadEvent::Data(b"ignored".to_vec()),
        ReadEvent::Eof,
    ];
    let notes = session_drain(7, &events);
    assert_eq!(notes.len(), 2);
    match &notes[0] {
        Notification::NewMessage(m) => assert_eq!(m.msg, b"one".to_vec()),
        _ => panic!("expected a message first"),
    }
    match &notes[1] {
        Notification::ClientDisconnection(addr) => assert_eq!(*addr, 7),
        _ => panic!("expected the one disconnection last"),
    }
}

#[test]
fn read_failure_also_ends_with_a_single_disconnect() {
    let events = vec![ReadEvent::Failed, ReadEvent::Data(b"late".to_vec())];
    let notes = session_drain(9, &events);
    assert_eq!(notes.len(), 1);
    match &notes[0] {
        Notification::ClientDisconnection(addr) => assert_eq!(*addr, 9),
        _ => panic!("expected a disconnection"),
    }
}

#[test]
fn closed_session_emits_nothing() {
    let (state, note) = session_step(SessionState::Closed, 3, ReadEvent::Data(b"x".to_vec()));
    assert_eq!(state, SessionState::Closed);
    assert!(note.is_none());
}

#[test]
fn payload_larger_than_buffer_splits_and_reassembles_in_order() {
    let payload: Vec<u8> = (0..=255u8).cycle().take(300).collect();
    let chunks = chunk_payload(&payload, 128);
    assert!(chunks.len() > 1);
    assert_eq!(chunks.len(), 3);
    for chunk in &chunks {
        assert!(!chunk.is_empty());
        assert!(chunk.len() <= 128);
    }
    let rejoined: Vec<u8> = chunks.iter().flatten().copied().collect();
    assert_eq!(rejoined, payload);

    // Fed through a session, the reads come back as one message each,
    // whose payloads concatenate to the original, in order.
    let mut events: Vec<ReadEvent> = chunks.into_iter().map(ReadEvent::Data).collect();
    events.push(ReadEvent::Eof);
    let notes = session_drain(4, &events);
    assert_eq!(notes.len(), 4);
    let mut received: Vec<u8> = Vec::new();
    for note in &notes[..3] {
        match note {
            Notification::NewMessage(m) => received.extend_from_slice(&m.msg),
            _ => panic!("expected messages before the disconnection"),
        }
    }
    assert_eq!(received, payload);
}

#[test]
fn payload_within_buffer_is_one_chunk() {
    let payload = b"hello".to_vec();
    let chunks = chunk_payload(&payload, 128);
    assert_eq!(chunks.len(), 1);
    assert_eq!(chunks[0], payload);
}

#[test]
fn empty_payload_gives_no_chunks() {
    let chunks = chunk_payload(&Vec::new(), 128);
    assert_eq!(chunks.len(), 0);
}
