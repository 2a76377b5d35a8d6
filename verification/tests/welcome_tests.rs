use piper_chat::keys::Key;
use piper_chat::keys::KeyPress;
use piper_chat::strutil::chars_to_string;
use piper_chat::welcome::handle_text_input;
use piper_chat::welcome::RoomMode;
use piper_chat::welcome::WelcomeField;
use piper_chat::welcome::WelcomeState;

fn key(code: Key) -> KeyPress {
    KeyPress { code, shift: false, ctrl: false }
}

fn key_with_shift(code: Key) -> KeyPress {
    KeyPress { code, shift: true, ctrl: false }
}

#[test]
fn initial_state() {
    let state = WelcomeState::new();
    assert_eq!(state.field, WelcomeField::Name);
    assert_eq!(state.mode, RoomMode::Create);
    assert!(state.name.is_empty());
    assert!(state.ticket.is_empty());
    assert!(state.error.is_none());
    assert!(!state.should_quit);
}

#[test]
fn next_field_in_create_mode() {
    let mut state = WelcomeState::new();
    assert_eq!(state.field, WelcomeField::Name);
    state.next_field();
    assert_eq!(state.field, WelcomeField::Mode);
    state.next_field();
    assert_eq!(state.field, WelcomeField::Name);
}

#[test]
fn next_field_in_join_mode() {
    let mut state = WelcomeState::new();
    state.mode = RoomMode::Join;
    assert_eq!(state.field, WelcomeField::Name);
    state.next_field();
    assert_eq!(state.field, WelcomeField::Mode);
    state.next_field();
    assert_eq!(state.field, WelcomeField::Ticket);
    state.next_field();
    assert_eq!(state.field, WelcomeField::Name);
}

#[test]
fn prev_field_in_create_mode() {
    let mut state = WelcomeState::new();
    assert_eq!(state.field, WelcomeField::Name);
    state.prev_field();
    assert_eq!(state.field, WelcomeField::Mode);
    state.prev_field();
    assert_eq!(state.field, WelcomeField::Name);
}

#[test]
fn prev_field_in_join_mode() {
    let mut state = WelcomeState::new();
    state.mode = RoomMode::Join;
    assert_eq!(state.field, WelcomeField::Name);
    state.prev_field();
    assert_eq!(state.field, WelcomeField::Ticket);
    state.prev_field();
    assert_eq!(state.field, WelcomeField::Mode);
    state.prev_field();
    assert_eq!(state.field, WelcomeField::Name);
}

#[test]
fn text_input_char_insertion() {
    let mut text: Vec<char> = Vec::new();
    let mut cursor: usize = 0;
    handle_text_input(&mut text, &mut cursor, key(Key::Char('a')));
    handle_text_input(&mut text, &mut cursor, key(Key::Char('b')));
    handle_text_input(&mut text, &mut cursor, key(Key::Char('c')));
    assert_eq!(chars_to_string(&text), "abc");
    assert_eq!(cursor, 3);
}

#[test]
fn text_input_backspace() {
    let mut text: Vec<char> = "hello".chars().collect();
    let mut cursor: usize = 5;
    handle_text_input(&mut text, &mut cursor, key(Key::Backspace));
    assert_eq!(chars_to_string(&text), "hell");
    assert_eq!(cursor, 4);
}

#[test]
fn text_input_backspace_at_start() {
    let mut text: Vec<char> = "hello".chars().collect();
    let mut cursor: usize = 0;
    handle_text_input(&mut text, &mut cursor, key(Key::Backspace));
    assert_eq!(chars_to_string(&text), "hello");
    assert_eq!(cursor, 0);
}

#[test]
fn text_input_cursor_movement() {
    let mut text: Vec<char> = "abc".chars().collect();
    let mut cursor: usize = 3;
    handle_text_input(&mut text, &mut cursor, key(Key::Left));
    handle_text_input(&mut text, &mut cursor, key(Key::Left));
    assert_eq!(cursor, 1);
    handle_text_input(&mut text, &mut cursor, key(Key::Right));
    assert_eq!(cursor, 2);
}

#[test]
fn text_input_cursor_clamped() {
    let mut text: Vec<char> = "ab".chars().collect();
    let mut cursor: usize = 0;
    handle_text_input(&mut text, &mut cursor, key(Key::Left));
    assert_eq!(cursor, 0);
    cursor = 2;
    handle_text_input(&mut text, &mut cursor, key(Key::Right));
    assert_eq!(cursor, 2);
}

#[test]
fn text_input_insert_in_middle() {
    let mut text: Vec<char> = "ac".chars().collect();
    let mut cursor: usize = 1;
    handle_text_input(&mut text, &mut cursor, key(Key::Char('b')));
    assert_eq!(chars_to_string(&text), "abc");
    assert_eq!(cursor, 2);
}

#[test]
fn esc_sets_should_quit() {
    let mut state = WelcomeState::new();
    state.handle_key(key(Key::Esc));
    assert!(state.should_quit);
}

#[test]
fn tab_advances_field() {
    let mut state = WelcomeState::new();
    state.handle_key(key(Key::Tab));
    assert_eq!(state.field, WelcomeField::Mode);
}

#[test]
fn shift_tab_goes_back() {
    let mut state = WelcomeState::new();
    state.field = WelcomeField::Mode;
    state.handle_key(key_with_shift(Key::Tab));
    assert_eq!(state.field, WelcomeField::Name);
}

#[test]
fn enter_with_empty_name_sets_error() {
    let mut state = WelcomeState::new();
    state.handle_key(key(Key::Enter));
    assert!(state.error.is_some());
    assert!(state.error.unwrap().contains("Name"));
}

#[test]
fn enter_join_without_ticket_sets_error() {
    let mut state = WelcomeState::new();
    state.name = "Alice".chars().collect();
    state.name_cursor = 5;
    state.mode = RoomMode::Join;
    state.handle_key(key(Key::Enter));
    assert!(state.error.is_some());
    assert!(state.error.unwrap().contains("Ticket"));
}

#[test]
fn enter_join_with_invalid_ticket_sets_error() {
    let mut state = WelcomeState::new();
    state.name = "Alice".chars().collect();
    state.name_cursor = 5;
    state.mode = RoomMode::Join;
    state.ticket = "not-a-valid-ticket".chars().collect();
    state.ticket_cursor = 18;
    state.handle_key(key(Key::Enter));
    assert!(state.error.is_some());
    assert!(state.error.unwrap().contains("Invalid"));
}

#[test]
fn enter_create_with_name_passes_validation() {
    let mut state = WelcomeState::new();
    state.name = "Alice".chars().collect();
    state.name_cursor = 5;
    state.mode = RoomMode::Create;
    state.handle_key(key(Key::Enter));
    assert!(state.error.is_none());
}

#[test]
fn typing_in_name_field() {
    let mut state = WelcomeState::new();
    assert_eq!(state.field, WelcomeField::Name);
    state.handle_key(key(Key::Char('A')));
    state.handle_key(key(Key::Char('l')));
    assert_eq!(chars_to_string(&state.name), "Al");
    assert_eq!(state.name_cursor, 2);
}

#[test]
fn mode_toggle_with_arrow_keys() {
    let mut state = WelcomeState::new();
    state.field = WelcomeField::Mode;
    assert_eq!(state.mode, RoomMode::Create);
    state.handle_key(key(Key::Right));
    assert_eq!(state.mode, RoomMode::Join);
    state.handle_key(key(Key::Left));
    assert_eq!(state.mode, RoomMode::Create);
}

#[test]
fn key_press_clears_previous_error() {
    let mut state = WelcomeState::new();
    state.error = Some("old error".into());
    state.handle_key(key(Key::Char('a')));
    assert!(state.error.is_none());
}

#[test]
fn enter_join_with_real_ticket_passes_validation() {
    let ticket = piper_chat::ticket::ChatTicket::new_random();
    let text = ticket.serialize();
    let mut state = WelcomeState::new();
    state.name = "Alice".chars().collect();
    state.name_cursor = 5;
    state.mode = RoomMode::Join;
    state.ticket = text.chars().collect();
    state.ticket_cursor = state.ticket.len();
    state.handle_key(key(Key::Enter));
    assert!(state.error.is_none());
}

#[test]
fn submit_trims_fields() {
    let mut state = WelcomeState::new();
    state.name = "  Alice ".chars().collect();
    match state.submit() {
        piper_chat::welcome::WelcomeResult::Create { nickname } => assert_eq!(nickname, "Alice"),
        _ => panic!("expected create"),
    }
}
