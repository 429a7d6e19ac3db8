use tabula::chat_session::{
    apply_ws_to_transcript, chat_key_action, chat_line_prompt, first_frame_nonempty, scroll_label,
    tail_print, transcript_window, viewport_height, Key, KeyAction, KeyCode, WsMessage,
};

fn key(code: KeyCode, ctrl: bool, alt: bool, shift: bool) -> Key {
    Key { code, ctrl, alt, shift, other_modifier: false, release: false }
}

#[test]
fn ws_frames_update_the_transcript() {
    let mut t = String::from("ab");
    let r = apply_ws_to_transcript(&mut t, &WsMessage::Append { data: Some("c".to_string()) });
    assert!(r.is_ok());
    assert_eq!(t, "abc");
    let r = apply_ws_to_transcript(&mut t, &WsMessage::Reset { data: Some("new".to_string()) });
    assert!(r.is_ok());
    assert_eq!(t, "new");
    let r = apply_ws_to_transcript(&mut t, &WsMessage::Append { data: None });
    assert!(r.is_ok());
    assert_eq!(t, "new");
}

#[test]
fn ws_error_frames_leave_the_transcript() {
    let mut t = String::from("keep");
    let r = apply_ws_to_transcript(&mut t, &WsMessage::Error { message: None });
    assert_eq!(r, Err("unknown error".to_string()));
    let r = apply_ws_to_transcript(&mut t, &WsMessage::Error { message: Some("denied".to_string()) });
    assert_eq!(r, Err("denied".to_string()));
    let r = apply_ws_to_transcript(&mut t, &WsMessage::Unknown { op: "ping".to_string() });
    assert_eq!(r, Err("unexpected ws op: ping".to_string()));
    assert_eq!(t, "keep");
}

#[test]
fn chat_keys_map_to_actions() {
    assert!(matches!(chat_key_action(&key(KeyCode::Esc, false, false, false), false), KeyAction::PinBottom));
    assert!(matches!(chat_key_action(&key(KeyCode::Esc, false, false, false), true), KeyAction::Input));
    assert!(matches!(chat_key_action(&key(KeyCode::Enter, false, false, false), true), KeyAction::Submit));
    assert!(matches!(chat_key_action(&key(KeyCode::Enter, false, false, true), true), KeyAction::Newline));
    assert!(matches!(chat_key_action(&key(KeyCode::Char('o'), true, false, false), true), KeyAction::Newline));
    assert!(matches!(chat_key_action(&key(KeyCode::Char('C'), true, false, false), true), KeyAction::Interrupt));
    assert!(matches!(chat_key_action(&key(KeyCode::Char('d'), true, false, false), true), KeyAction::EndOrInput));
    assert!(matches!(chat_key_action(&key(KeyCode::Char('e'), true, false, false), true), KeyAction::OpenEditor));
    assert!(matches!(chat_key_action(&key(KeyCode::Char('B'), true, false, false), true), KeyAction::PageUp));
    assert!(matches!(chat_key_action(&key(KeyCode::Char('b'), true, true, false), true), KeyAction::Input));
    assert!(matches!(chat_key_action(&key(KeyCode::Up, false, false, true), true), KeyAction::PageUp));
    assert!(matches!(chat_key_action(&key(KeyCode::Up, false, false, false), true), KeyAction::Input));
    assert!(matches!(chat_key_action(&key(KeyCode::PageDown, false, false, false), true), KeyAction::PageDown));
    assert!(matches!(chat_key_action(&key(KeyCode::Char('f'), true, false, false), true), KeyAction::PageDown));
    let mut released = key(KeyCode::Enter, false, false, false);
    released.release = true;
    assert!(matches!(chat_key_action(&released, true), KeyAction::Ignore));
}

#[test]
fn viewport_leaves_room_for_input_and_status() {
    assert_eq!(viewport_height(24, 1, false), 21);
    assert_eq!(viewport_height(24, 0, true), 20);
    assert_eq!(viewport_height(24, 3, true), 18);
    assert_eq!(viewport_height(3, 5, false), 1);
    assert_eq!(viewport_height(1, 1, true), 1);
}

#[test]
fn transcript_window_clips_to_rows() {
    assert_eq!(transcript_window(10, 8, 5), Some((8, 10)));
    assert_eq!(transcript_window(10, 2, 5), Some((2, 7)));
    assert_eq!(transcript_window(10, 10, 5), None);
    assert_eq!(transcript_window(3, 0, 0), None);
}

#[test]
fn scroll_label_right_aligns_position() {
    assert_eq!(scroll_label(0, 0, 10), (7, "1/1".to_string()));
    assert_eq!(scroll_label(4, 20, 3), (0, "5/20".to_string()));
    assert_eq!(scroll_label(99, 20, 8), (3, "20/20".to_string()));
}

#[test]
fn tail_print_banner_and_newline() {
    let p = tail_print(&WsMessage::Reset { data: Some("x".to_string()) }, false).unwrap();
    assert!(p.banner);
    assert_eq!(p.data, Some("x".to_string()));
    assert!(p.newline_after);
    let p = tail_print(&WsMessage::Reset { data: Some("x\n".to_string()) }, true).unwrap();
    assert!(!p.banner);
    assert!(!p.newline_after);
    let p = tail_print(&WsMessage::Append { data: Some("y".to_string()) }, false).unwrap();
    assert!(!p.banner);
    assert_eq!(p.data, Some("y".to_string()));
    assert!(!p.newline_after);
    assert_eq!(
        tail_print(&WsMessage::Unknown { op: "z".to_string() }, false).err(),
        Some("unexpected ws op: z".to_string())
    );
}

#[test]
fn first_frame_and_prompt() {
    assert!(first_frame_nonempty(&WsMessage::Reset { data: Some("a".to_string()) }));
    assert!(!first_frame_nonempty(&WsMessage::Reset { data: Some(String::new()) }));
    assert!(!first_frame_nonempty(&WsMessage::Error { message: None }));
    assert_eq!(chat_line_prompt("h", "/p", "n"), "tb h /p n → ");
}
