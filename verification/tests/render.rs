use chat_hub::notification::ClientMessage;
use chat_hub::notification::Notification;
use chat_hub::redaction::placeholder_text;
use chat_hub::redaction::Sensitive;
use chat_hub::render::i64_to_string;
use chat_hub::render::u64_to_string;

#[test]
fn redaction_enabled_renders_the_fixed_placeholder() {
    let secret = Sensitive::new(String::from("the launch codes"));
    assert_eq!(secret.render(true), "[CENSORED]".to_string());
    assert_eq!(placeholder_text(), "[CENSORED]");
}

#[test]
fn redaction_disabled_renders_the_literal_contents() {
    let open_value = Sensitive::new(String::from("the launch codes"));
    assert_eq!(open_value.render(false), "the launch codes".to_string());
}

#[test]
fn message_log_line_redacts_only_the_content() {
    let m = ClientMessage {
        author: 7,
        date: 5,
        msg: b"hello".to_vec(),
    };
    assert_eq!(m.render(true), "author: 7 date: 5 msg: [CENSORED]".to_string());
    assert_eq!(m.render(false), "author: 7 date: 5 msg: hello".to_string());
}

#[test]
fn notification_log_lines() {
    let conn = Notification::ClientConnection(12, 34);
    assert_eq!(conn.render(true), "ClientConnection: 12 handle: 34".to_string());
    let gone = Notification::ClientDisconnection(12);
    assert_eq!(gone.render(true), "ClientDisconnection: 12".to_string());
    let msg = Notification::NewMessage(ClientMessage {
        author: 1,
        date: -3,
        msg: b"shh".to_vec(),
    });
    assert_eq!(
        msg.render(true),
        "NewMessage: author: 1 date: -3 msg: [CENSORED]".to_string()
    );
    assert_eq!(
        msg.render(false),
        "NewMessage: author: 1 date: -3 msg: shh".to_string()
    );
}

#[test]
fn hub_log_line_follows_the_hub_safety_flag() {
    let safe_hub = chat_hub::hub::Hub::new(true);
    let loud_hub = chat_hub::hub::Hub::new(false);
    let msg = Notification::NewMessage(ClientMessage {
        author: 2,
        date: 0,
        msg: b"body".to_vec(),
    });
    assert_eq!(
        safe_hub.log_line(&msg),
        "NewMessage: author: 2 date: 0 msg: [CENSORED]".to_string()
    );
    assert_eq!(
        loud_hub.log_line(&msg),
        "NewMessage: author: 2 date: 0 msg: body".to_string()
    );
}

#[test]
fn decimal_rendering_exact_values() {
    assert_eq!(u64_to_string(0), "0".to_string());
    assert_eq!(u64_to_string(42), "42".to_string());
    assert_eq!(u64_to_string(u64::MAX), "18446744073709551615".to_string());
    assert_eq!(i64_to_string(0), "0".to_string());
    assert_eq!(i64_to_string(-1), "-1".to_string());
    assert_eq!(i64_to_string(i64::MIN), "-9223372036854775808".to_string());
    assert_eq!(i64_to_string(i64::MAX), "9223372036854775807".to_string());
}

#[test]
fn lossy_text_of_invalid_bytes_is_not_the_raw_bytes() {
    let m = ClientMessage {
        author: 1,
        date: 0,
        msg: vec![0xff, 0xfe],
    };
    let line = m.render(false);
    assert_eq!(line, format!("author: 1 date: 0 msg: {}{}", '\u{fffd}', '\u{fffd}'));
}
