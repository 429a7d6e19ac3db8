use tabula::chat::{
    api_host_for_prompt, canonical_prompt, initial_chat_subscribe_tail, max_display_scroll,
    normalize_editor_text, parse_chat_submit, prompt_target, wrap_transcript_lines,
    ChatScrollState, ChatSubmitAction, StatusLine, StatusTone,
};
use tabula::commands::TailMode;

#[test]
fn preserves_blank_lines_for_markdown_chat() {
    let transcript = "## nick\n\nhello\n\n";
    let lines = wrap_transcript_lines(transcript, 80);
    assert_eq!(lines, vec!["## nick", "", "hello", "", ""]);
}

#[test]
fn wraps_long_transcript_rows() {
    let lines = wrap_transcript_lines("abcdef", 3);
    assert_eq!(lines, vec!["abc", "def"]);
}

#[test]
fn canonical_prompt_keeps_full_chat_identity() {
    assert_eq!(
        canonical_prompt("127.0.0.1:3050", "CAT/DOC", "gigabito"),
        "tb 127.0.0.1:3050/CAT/DOC gigabito"
    );
}

#[test]
fn canonical_prompt_collapses_host_path_boundary_slashes() {
    assert_eq!(
        canonical_prompt("127.0.0.1:3050", "/tabularium/meetings/debs", "gigabito"),
        "tb 127.0.0.1:3050/tabularium/meetings/debs gigabito"
    );
}



#[test]
fn slash_exit_commands_quit_chat() {
    assert!(matches!(
        parse_chat_submit("/q"),
        Ok(ChatSubmitAction::Exit)
    ));
    assert!(matches!(
        parse_chat_submit("/quit"),
        Ok(ChatSubmitAction::Exit)
    ));
    assert!(matches!(
        parse_chat_submit(" /exit "),
        Ok(ChatSubmitAction::Exit)
    ));
}

#[test]
fn slash_edit_opens_editor_action() {
    assert!(matches!(
        parse_chat_submit("/e"),
        Ok(ChatSubmitAction::Edit)
    ));
    assert!(matches!(
        parse_chat_submit("/edit"),
        Ok(ChatSubmitAction::Edit)
    ));
}

#[test]
fn slash_d_full_document_edit() {
    assert!(matches!(
        parse_chat_submit("/d"),
        Ok(ChatSubmitAction::EditFullDocument { path: None })
    ));
    match parse_chat_submit("/d other/doc") {
        Ok(ChatSubmitAction::EditFullDocument { path: Some(p) }) => {
            assert_eq!(p, "other/doc");
        }
        other => panic!("unexpected: {other:?}"),
    }
}

#[test]
fn slash_doc_alias_matches_slash_d() {
    assert!(matches!(
        parse_chat_submit("/doc"),
        Ok(ChatSubmitAction::EditFullDocument { path: None })
    ));
    match parse_chat_submit("/doc other/doc") {
        Ok(ChatSubmitAction::EditFullDocument { path: Some(p) }) => {
            assert_eq!(p, "other/doc");
        }
        other => panic!("unexpected: {other:?}"),
    }
}

#[test]
fn slash_history_opens_pager_action() {
    assert!(matches!(
        parse_chat_submit("/h"),
        Ok(ChatSubmitAction::History)
    ));
    assert!(matches!(
        parse_chat_submit("/history"),
        Ok(ChatSubmitAction::History)
    ));
}

#[test]
fn slash_nick_changes_speaker() {
    match parse_chat_submit("/nick gigabito the great") {
        Ok(ChatSubmitAction::ChangeNick(next)) => assert_eq!(next, "gigabito the great"),
        other => panic!("unexpected parse result: {other:?}"),
    }
}

#[test]
fn unknown_or_invalid_slash_commands_error() {
    assert!(parse_chat_submit("/nick").is_err());
    assert!(parse_chat_submit("/wat").is_err());
    assert!(parse_chat_submit("/q now").is_err());
    assert!(parse_chat_submit("/history all").is_err());
}

#[test]
fn plain_messages_are_sent_verbatim_except_trailing_newlines() {
    match parse_chat_submit("hello there\n") {
        Ok(ChatSubmitAction::Send(message)) => assert_eq!(message, "hello there"),
        other => panic!("unexpected parse result: {other:?}"),
    }
}

#[test]
fn wrap_empty_and_zero_width() {
    assert_eq!(wrap_transcript_lines("", 10), vec![""]);
    assert_eq!(wrap_transcript_lines("ab", 0), vec!["a", "b"]);
    assert_eq!(wrap_transcript_lines("éàü", 2), vec!["éà", "ü"]);
}

#[test]
fn wrap_rows_reassemble_line() {
    let rows = wrap_transcript_lines("abcdefg", 3);
    assert_eq!(rows.concat(), "abcdefg");
    assert!(rows.iter().all(|r| !r.is_empty() && r.chars().count() <= 3));
}

#[test]
fn prompt_target_single_slash() {
    assert_eq!(prompt_target("h:1", "//a/b"), "h:1/a/b");
}

#[test]
fn api_host_strips_scheme_and_trailing_slashes() {
    assert_eq!(api_host_for_prompt("http://127.0.0.1:3050/"), "127.0.0.1:3050");
    assert_eq!(api_host_for_prompt("https://x.example//"), "x.example");
    assert_eq!(api_host_for_prompt("x.example"), "x.example");
}

#[test]
fn editor_text_loses_one_trailing_newline() {
    assert_eq!(normalize_editor_text("a\r\n".to_string()), "a");
    assert_eq!(normalize_editor_text("a\n\n".to_string()), "a\n");
    assert_eq!(normalize_editor_text("a".to_string()), "a");
}

#[test]
fn scroll_state_paging() {
    assert_eq!(max_display_scroll(10, 4), 6);
    assert_eq!(max_display_scroll(3, 4), 0);
    let mut s = ChatScrollState::new();
    assert_eq!(s.effective_offset(10, 4), 6);
    s.page_up(4);
    assert!(!s.pinned_bottom);
    assert_eq!(s.scroll_off, 0);
    s.scroll_off = 5;
    s.page_up(4);
    assert_eq!(s.effective_offset(10, 4), 1);
    s.page_down(10, 4);
    assert_eq!(s.scroll_off, 5);
    assert!(!s.pinned_bottom);
    s.page_down(10, 4);
    assert_eq!(s.scroll_off, 6);
    assert!(s.pinned_bottom);
    s.on_remote_content_changed(false);
    assert!(s.pinned_bottom);
    let mut d = ChatScrollState { pinned_bottom: false, scroll_off: 9 };
    d.clamp_when_detached(10, 4);
    assert_eq!(d.scroll_off, 6);
    d.on_remote_content_changed(true);
    assert!(d.pinned_bottom);
}

#[test]
fn status_line_tones() {
    let i = StatusLine::info("hi".to_string());
    assert_eq!(i.text, "hi");
    assert_eq!(i.tone, StatusTone::Info);
    let e = StatusLine::error("bad".to_string());
    assert_eq!(e.tone, StatusTone::Error);
}

#[test]
fn chat_subscribes_from_first_line() {
    assert_eq!(initial_chat_subscribe_tail(), TailMode::FromLine(1));
}

#[test]
fn slash_command_error_messages() {
    assert_eq!(parse_chat_submit("/Q now").unwrap_err(), "/Q does not take arguments");
    assert_eq!(parse_chat_submit("/wat").unwrap_err(), "unknown chat command: /wat");
    assert_eq!(parse_chat_submit("/nick").unwrap_err(), "/nick requires a nickname");
    assert_eq!(parse_chat_submit("\r\n"), Ok(ChatSubmitAction::Ignore));
    assert_eq!(
        parse_chat_submit("  \r\n"),
        Ok(ChatSubmitAction::Send("  ".to_string()))
    );
    assert_eq!(
        parse_chat_submit("/x\ny\n"),
        Ok(ChatSubmitAction::Send("/x\ny".to_string()))
    );
}
