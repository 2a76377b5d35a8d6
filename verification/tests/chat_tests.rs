use piper_chat::chat::App;
use piper_chat::chat::ChatLine;

#[test]
fn app_starts_empty() {
    let app = App::new();
    assert!(app.messages.is_empty());
    assert!(app.input.is_empty());
    assert_eq!(app.cursor_pos, 0);
    assert!(!app.should_quit);
    assert!(app.peers.is_empty());
}

#[test]
fn app_system_message() {
    let mut app = App::new();
    app.system("hello".to_string());
    assert_eq!(app.messages.len(), 1);
    assert!(matches!(&app.messages[0], ChatLine::System(s) if s == "hello"));
}

#[test]
fn app_ticket_message() {
    let mut app = App::new();
    app.ticket("abc123".to_string());
    assert_eq!(app.messages.len(), 1);
    assert!(matches!(&app.messages[0], ChatLine::Ticket(s) if s == "abc123"));
}

#[test]
fn app_chat_message() {
    let mut app = App::new();
    app.chat("Alice".into(), "hey there".into());
    assert_eq!(app.messages.len(), 1);
    assert!(
        matches!(&app.messages[0], ChatLine::Chat { nickname, text } if nickname == "Alice" && text == "hey there")
    );
}

#[test]
fn app_system_accepts_string_and_str() {
    let mut app = App::new();
    app.system("a &str".to_string());
    app.system(String::from("a String"));
    assert_eq!(app.messages.len(), 2);
}

#[test]
fn app_messages_accumulate_in_order() {
    let mut app = App::new();
    app.system("first".to_string());
    app.chat("Bob".into(), "second".into());
    app.ticket("third".to_string());
    assert_eq!(app.messages.len(), 3);
    assert!(matches!(&app.messages[0], ChatLine::System(_)));
    assert!(matches!(&app.messages[1], ChatLine::Chat { .. }));
    assert!(matches!(&app.messages[2], ChatLine::Ticket(_)));
}
