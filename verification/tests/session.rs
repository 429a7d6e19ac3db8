use tabula::logline::LineTrimWriter;
use tabula::shell::{
    classify_shell_line, cwd_for_path, initial_shell_cwd, prompt_text, shell_cd_step,
    shell_timeout_line, should_invalidate_cache, CdStep, ShellLine, TimeoutStep,
};
use tabula::commands::Command;
use tabula::wsdoc::{doc_change, subscribe_lines, unsubscribe_ends, DocChange, LinesWire};
use tabula::commands::TailMode;

#[test]
fn shell_lines_are_classified() {
    assert!(matches!(classify_shell_line("   "), ShellLine::Skip));
    assert!(matches!(classify_shell_line(" q "), ShellLine::Exit));
    assert!(matches!(classify_shell_line("quit"), ShellLine::Exit));
    assert!(matches!(classify_shell_line("?"), ShellLine::Help));
    assert!(matches!(classify_shell_line("clear"), ShellLine::Clear));
    assert!(matches!(classify_shell_line("cd  /a"), ShellLine::Cd));
    assert!(matches!(classify_shell_line("timeout 5"), ShellLine::Timeout));
    assert!(matches!(classify_shell_line("!  ls -l"), ShellLine::Script(s) if s == "ls -l"));
    assert!(matches!(classify_shell_line("!  "), ShellLine::EmptyScript));
    assert!(matches!(classify_shell_line("cat a"), ShellLine::Run));
    assert!(matches!(classify_shell_line("cdx"), ShellLine::Run));
}

#[test]
fn cd_steps() {
    assert!(matches!(shell_cd_step("cd /", Some("a")), Ok(CdStep::SetCwd(None))));
    assert!(matches!(shell_cd_step("cd ..", Some("a/b")), Ok(CdStep::SetCwd(Some(c))) if c == "a"));
    assert!(matches!(shell_cd_step("cd ..", Some("a")), Ok(CdStep::SetCwd(None))));
    assert!(matches!(shell_cd_step("cd b", Some("a")), Ok(CdStep::Visit(p)) if p == "/a/b"));
    assert!(matches!(shell_cd_step("cd 'x y'", None), Ok(CdStep::Visit(p)) if p == "/x y"));
    assert_eq!(shell_cd_step("cd", None).err().as_deref(), Some("cd: missing operand"));
    assert_eq!(shell_cd_step("cd a b", None).err().as_deref(), Some("cd: too many arguments"));
    assert_eq!(shell_cd_step("cd 'a", None).err().as_deref(), Some("cd: unmatched quote"));
    assert_eq!(cwd_for_path("/"), None);
    assert_eq!(cwd_for_path("/a/b").as_deref(), Some("a/b"));
}

#[test]
fn timeout_steps() {
    assert!(matches!(shell_timeout_line("timeout"), Ok(Some(TimeoutStep::Show))));
    assert!(matches!(shell_timeout_line("timeout 0"), Ok(Some(TimeoutStep::SetTo(1)))));
    assert!(matches!(shell_timeout_line("timeout 30"), Ok(Some(TimeoutStep::SetTo(30)))));
    assert_eq!(shell_timeout_line("timeout x").err().as_deref(), Some("timeout: invalid number"));
    assert_eq!(shell_timeout_line("timeout 1 2").err().as_deref(), Some("timeout: too many arguments"));
    assert_eq!(shell_timeout_line("timeout \"1").err().as_deref(), Some("missing closing quote"));
    assert!(matches!(shell_timeout_line("'time'out"), Ok(Some(TimeoutStep::Show))));
}

#[test]
fn initial_cwd_targets() {
    assert_eq!(initial_shell_cwd(None), Ok(None));
    assert_eq!(initial_shell_cwd(Some("  ")), Ok(None));
    assert_eq!(initial_shell_cwd(Some("a/b")), Ok(Some("/a/b".to_string())));
}

#[test]
fn cache_invalidating_commands() {
    assert!(should_invalidate_cache(&Command::Rm { recursive: false, path: "a".into() }));
    assert!(!should_invalidate_cache(&Command::Cat { path: "a".into(), raw: false }));
}

#[test]
fn prompt_text_shows_target_and_dir() {
    assert_eq!(prompt_text("http://127.0.0.1:3050", None), "tb 127.0.0.1:3050/ ❯ ");
    assert_eq!(prompt_text("http://h", Some("a/b")), "tb h/a/b ❯ ");
}

#[test]
fn log_lines_are_trimmed_per_line() {
    let mut w = LineTrimWriter::new();
    assert_eq!(w.write(b"  hel"), None);
    w.flush_line(true);
    assert_eq!(w.buf, b"  hel".to_vec());
    assert_eq!(w.write(b"lo\n  next"), Some(b"hello\n".to_vec()));
    w.flush_line(true);
    assert_eq!(w.buf, b"  next".to_vec());
    assert_eq!(w.pending_line(), None);
    assert_eq!(w.pending_rest(), Some(b"next".to_vec()));
    w.finish(true);
    assert_eq!(w.pending_rest(), None);
}

#[test]
fn a_failed_log_write_keeps_the_line_buffered() {
    let mut w = LineTrimWriter::new();
    assert_eq!(w.write(b"  hi\nrest"), Some(b"hi\n".to_vec()));
    w.flush_line(false);
    assert_eq!(w.buf, b"  hi\nrest".to_vec());
    assert_eq!(w.pending_line(), Some(b"hi\n".to_vec()));
    w.flush_line(true);
    assert_eq!(w.buf, b"rest".to_vec());
    w.finish(false);
    assert_eq!(w.buf, b"rest".to_vec());
}

#[test]
fn document_changes_for_subscribers() {
    assert!(matches!(doc_change("ab", "abcd"), DocChange::Append(s) if s == "cd"));
    assert!(matches!(doc_change("ab", "ab"), DocChange::Unchanged));
    assert!(matches!(doc_change("ab", "xb"), DocChange::Reset));
    assert!(matches!(doc_change("abc", "ab"), DocChange::Reset));
}

#[test]
fn subscribe_lines_forms() {
    assert_eq!(subscribe_lines(&LinesWire::Num(5)), Ok(TailMode::Last(5)));
    assert_eq!(subscribe_lines(&LinesWire::Num(5_000_000_000)), Err("lines: number out of range".to_string()));
    assert_eq!(subscribe_lines(&LinesWire::Text("+3".into())), Ok(TailMode::FromLine(3)));
    assert!(subscribe_lines(&LinesWire::Text("3".into())).is_err());
}

#[test]
fn unsubscribe_matches_normalized_path() {
    assert_eq!(unsubscribe_ends(Some("/a/b"), "a//b/"), Ok(true));
    assert_eq!(unsubscribe_ends(Some("/a/b"), "/a"), Ok(false));
    assert_eq!(unsubscribe_ends(None, "/a"), Ok(false));
    assert!(unsubscribe_ends(None, "").is_err());
}
