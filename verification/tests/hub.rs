use chat_hub::hub::Hub;
use chat_hub::notification::ClientMessage;
use chat_hub::notification::Notification;

fn message(author: u64, date: i64, text: &str) -> Notification {
    Notification::NewMessage(ClientMessage {
        author,
        date,
        msg: text.as_bytes().to_vec(),
    })
}

#[test]
fn registry_size_counts_connects_minus_disconnects() {
    let mut hub = Hub::new(true);
    assert_eq!(hub.registry_len(), 0);
    hub.process(Notification::ClientConnection(1, 10));
    hub.process(Notification::ClientConnection(2, 20));
    hub.process(Notification::ClientConnection(3, 30));
    assert_eq!(hub.registry_len(), 3);
    hub.process(Notification::ClientDisconnection(2));
    assert_eq!(hub.registry_len(), 2);
    hub.process(Notification::ClientDisconnection(1));
    hub.process(Notification::ClientDisconnection(3));
    assert_eq!(hub.registry_len(), 0);
}

#[test]
fn disconnect_for_unknown_address_is_noop() {
    let mut hub = Hub::new(true);
    hub.process(Notification::ClientConnection(1, 10));
    let actions = hub.process(Notification::ClientDisconnection(99));
    assert_eq!(actions.len(), 0);
    assert_eq!(hub.registry_len(), 1);
    assert!(hub.is_registered(1));
    assert!(!hub.is_registered(99));
}

#[test]
fn connect_replaces_stale_entry_last_write_wins() {
    let mut hub = Hub::new(true);
    hub.process(Notification::ClientConnection(1, 10));
    hub.process(Notification::ClientConnection(1, 11));
    assert_eq!(hub.registry_len(), 1);
    assert_eq!(hub.handle_for(1), Some(11));
}

#[test]
fn broadcast_reaches_every_other_client_and_never_the_author() {
    let mut hub = Hub::new(true);
    hub.process(Notification::ClientConnection(1, 10));
    hub.process(Notification::ClientConnection(2, 20));
    hub.process(Notification::ClientConnection(3, 30));
    let actions = hub.process(message(2, 1000, "hi all"));
    assert_eq!(actions.len(), 2);
    let mut addrs: Vec<u64> = actions.iter().map(|a| a.addr).collect();
    addrs.sort();
    assert_eq!(addrs, vec![1, 3]);
    for action in &actions {
        assert_ne!(action.addr, 2);
        assert_eq!(action.payload, b"hi all".to_vec());
        let handle = hub.handle_for(action.addr).unwrap();
        assert_eq!(action.handle, handle);
    }
}

#[test]
fn broadcast_with_no_other_clients_is_empty() {
    let mut hub = Hub::new(true);
    hub.process(Notification::ClientConnection(1, 10));
    let actions = hub.process(message(1, 0, "talking to myself"));
    assert_eq!(actions.len(), 0);
}

#[test]
fn message_leaves_registry_unchanged() {
    let mut hub = Hub::new(false);
    hub.process(Notification::ClientConnection(1, 10));
    hub.process(Notification::ClientConnection(2, 20));
    hub.process(message(1, 0, "x"));
    assert_eq!(hub.registry_len(), 2);
    assert_eq!(hub.handle_for(1), Some(10));
    assert_eq!(hub.handle_for(2), Some(20));
}

#[test]
fn end_to_end_connect_relay_disconnect() {
    let mut hub = Hub::new(true);
    // A second client is connected beforehand.
    hub.process(Notification::ClientConnection(2, 20));
    // The first client connects: the registry gains one entry.
    hub.process(Notification::ClientConnection(1, 10));
    assert_eq!(hub.registry_len(), 2);
    // It sends "hello" (5 bytes): the other client receives exactly them.
    let actions = hub.process(message(1, 7, "hello"));
    assert_eq!(actions.len(), 1);
    assert_eq!(actions[0].addr, 2);
    assert_eq!(actions[0].handle, 20);
    assert_eq!(actions[0].payload, b"hello".to_vec());
    // It closes: the registry loses the entry and no further relay
    // reaches that address.
    hub.process(Notification::ClientDisconnection(1));
    assert_eq!(hub.registry_len(), 1);
    assert!(!hub.is_registered(1));
    let later = hub.process(message(2, 8, "anyone?"));
    assert!(later.iter().all(|a| a.addr != 1));
    assert_eq!(later.len(), 0);
}
