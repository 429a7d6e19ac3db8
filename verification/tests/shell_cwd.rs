use tabula::commands::{apply_shell_cwd, Command, TailMode};

#[allow(clippy::similar_names)]
fn unwrap_ac(cmd: Command, cwd: Option<&str>) -> Command {
    apply_shell_cwd(cmd, cwd).unwrap()
}

#[test]
fn ls_fills_cwd_when_omitted() {
    let c = unwrap_ac(
        Command::Ls {
            directory: None,
            sort_by_time: false,
            reverse: false,
        },
        Some("notes"),
    );
    assert!(matches!(c, Command::Ls { directory: Some(ref s), .. } if s == "notes"));
}

#[test]
fn ls_bare_segment_prepends_cwd_like_cat() {
    let c = unwrap_ac(
        Command::Ls {
            directory: Some("other".into()),
            sort_by_time: false,
            reverse: false,
        },
        Some("notes"),
    );
    assert!(matches!(c, Command::Ls { directory: Some(ref s), .. } if s == "notes/other"));
}

#[test]
fn ls_dot_resolves_shell_cwd() {
    let c = unwrap_ac(
        Command::Ls {
            directory: Some(".".into()),
            sort_by_time: false,
            reverse: false,
        },
        Some("notes"),
    );
    assert!(matches!(c, Command::Ls { directory: Some(ref s), .. } if s == "notes"));
}

#[test]
fn cat_bare_prepends_slash_bypasses() {
    let c = unwrap_ac(
        Command::Cat {
            path: "doc".into(),
            raw: false,
        },
        Some("n"),
    );
    assert!(matches!(c, Command::Cat { path, .. } if path == "n/doc"));
    let c = unwrap_ac(
        Command::Cat {
            path: "x/doc".into(),
            raw: false,
        },
        Some("n"),
    );
    assert!(matches!(c, Command::Cat { path, .. } if path == "n/x/doc"));
}

#[test]
fn rm_multi_segment_uses_cwd() {
    let c = unwrap_ac(
        Command::Rm {
            path: "chats/chat1".into(),
            recursive: false,
        },
        Some("xxx"),
    );
    assert!(matches!(c, Command::Rm { path, .. } if path == "xxx/chats/chat1"));
}

#[test]
fn mv_src_multi_segment_uses_cwd() {
    let c = unwrap_ac(
        Command::Mv {
            src: "subdir/file".into(),
            dst: "target".into(),
        },
        Some("xxx"),
    );
    assert!(
        matches!(c, Command::Mv { src, dst } if src == "xxx/subdir/file" && dst == "xxx/target")
    );
}

#[test]
fn cat_multi_segment_uses_cwd() {
    let c = unwrap_ac(
        Command::Cat {
            path: "subdir/doc".into(),
            raw: false,
        },
        Some("xxx"),
    );
    assert!(matches!(c, Command::Cat { path, .. } if path == "xxx/subdir/doc"));
}

#[test]
fn put_multi_segment_uses_cwd() {
    let c = unwrap_ac(
        Command::Put {
            path: "subdir/doc".into(),
            file: None,
        },
        Some("xxx"),
    );
    assert!(matches!(c, Command::Put { path, .. } if path == "xxx/subdir/doc"));
}

#[test]
fn rm_modes_per_matrix() {
    let c = unwrap_ac(
        Command::Rm {
            path: "a".into(),
            recursive: false,
        },
        Some("c"),
    );
    assert!(matches!(c, Command::Rm { path, .. } if path == "c/a"));
    let c = unwrap_ac(
        Command::Rm {
            path: "a".into(),
            recursive: true,
        },
        Some("c"),
    );
    assert!(matches!(c, Command::Rm { path, .. } if path == "c/a"));
    let c = unwrap_ac(
        Command::Rm {
            path: "f*".into(),
            recursive: false,
        },
        Some("c"),
    );
    assert!(matches!(c, Command::Rm { path, .. } if path == "c/f*"));
    let c = unwrap_ac(
        Command::Rm {
            path: "cat".into(),
            recursive: false,
        },
        None,
    );
    assert!(matches!(c, Command::Rm { path, .. } if path == "cat"));
}

#[test]
fn rm_trailing_slash_relative_uses_cwd() {
    let c = unwrap_ac(
        Command::Rm {
            path: "sub/".into(),
            recursive: false,
        },
        Some("notes"),
    );
    assert!(matches!(c, Command::Rm { path, .. } if path == "notes/sub"));
}

#[test]
fn mv_bare_uses_cwd_at_root_directory_rename() {
    let c = unwrap_ac(
        Command::Mv {
            src: "a".into(),
            dst: "b".into(),
        },
        Some("z"),
    );
    assert!(matches!(c, Command::Mv { src, dst } if src == "z/a" && dst == "z/b"));
    let c = unwrap_ac(
        Command::Mv {
            src: "a".into(),
            dst: "b".into(),
        },
        None,
    );
    assert!(matches!(c, Command::Mv { src, dst } if src == "a" && dst == "b"));
}

#[test]
fn mv_bare_glob_prepended_with_cwd() {
    let c = unwrap_ac(
        Command::Mv {
            src: "p*".into(),
            dst: "q".into(),
        },
        Some("z"),
    );
    assert!(matches!(c, Command::Mv { src, dst } if src == "z/p*" && dst == "z/q"));
}

#[test]
fn mv_dst_trailing_slash_prepends_cwd() {
    let c = unwrap_ac(
        Command::Mv {
            src: "meeting-test".into(),
            dst: "meetings/".into(),
        },
        Some("eva"),
    );
    assert!(matches!(c, Command::Mv { dst, .. } if dst == "eva/meetings"));
}

#[test]
fn path_first_commands_resolve() {
    for (cmd, expect) in [
        (
            Command::Put {
                path: "d".into(),
                file: None,
            },
            "c/d",
        ),
        (
            Command::Append {
                path: "d".into(),
                file: None,
            },
            "c/d",
        ),
        (
            Command::Head {
                path: "d".into(),
                lines: 1,
                raw: false,
            },
            "c/d",
        ),
        (
            Command::Tail {
                path: "d".into(),
                tail: TailMode::Last(1),
                follow: false,
                raw: false,
            },
            "c/d",
        ),
        (
            Command::Chat {
                path: "d".into(),
                nickname: None,
                raw: false,
            },
            "c/d",
        ),
        (
            Command::Slice {
                path: "d".into(),
                start: 1,
                end: 2,
                raw: false,
            },
            "c/d",
        ),
        (Command::Stat { path: "d".into() }, "c/d"),
        (Command::Wc { path: "d".into() }, "c/d"),
        (Command::Edit { path: "d".into() }, "c/d"),
        (Command::Wait { path: "d".into() }, "c/d"),
        (Command::Less { path: "d".into() }, "c/d"),
        (
            Command::Desc {
                path: "d".into(),
                description: vec![],
            },
            "c/d",
        ),
    ] {
        let out = unwrap_ac(cmd, Some("c"));
        let (Command::Put { path: p, .. }
        | Command::Append { path: p, .. }
        | Command::Head { path: p, .. }
        | Command::Tail { path: p, .. }
        | Command::Chat { path: p, .. }
        | Command::Slice { path: p, .. }
        | Command::Stat { path: p }
        | Command::Wc { path: p }
        | Command::Edit { path: p }
        | Command::Wait { path: p }
        | Command::Less { path: p }
        | Command::Desc { path: p, .. }) = out
        else {
            panic!("unexpected variant");
        };
        assert_eq!(p, expect);
    }
}

#[test]
fn grep_path_resolves() {
    let c = unwrap_ac(
        Command::Grep {
            pattern: "x".into(),
            path: "p".into(),
            max_matches: 0,
            invert_match: false,
        },
        Some("c"),
    );
    assert!(matches!(c, Command::Grep { path, .. } if path == "c/p"));
}

#[test]
fn reindex_preserves_slash_sentinel_strips_directory_segment() {
    let r = unwrap_ac(Command::Reindex { path: "/".into() }, Some("c"));
    assert!(matches!(r, Command::Reindex { path } if path == "/"));
    let r2 = unwrap_ac(
        Command::Reindex {
            path: "/work".into(),
        },
        Some("c"),
    );
    assert!(matches!(r2, Command::Reindex { path } if path == "work"));
    let r_dot = unwrap_ac(Command::Reindex { path: ".".into() }, Some("c"));
    assert!(matches!(r_dot, Command::Reindex { path } if path == "c"));
}

#[test]
fn search_directory_optional_strips_leading_slash() {
    let s = unwrap_ac(
        Command::Search {
            directory: None,
            query: vec!["q".into()],
        },
        Some("c"),
    );
    assert!(matches!(
        s,
        Command::Search {
            directory: None,
            ..
        }
    ));
    let s2 = unwrap_ac(
        Command::Search {
            directory: Some("/notes".into()),
            query: vec!["q".into()],
        },
        Some("c"),
    );
    assert!(matches!(s2, Command::Search { directory: Some(ref x), .. } if x == "notes"));
    let s3 = unwrap_ac(
        Command::Search {
            directory: Some("/".into()),
            query: vec!["q".into()],
        },
        Some("c"),
    );
    assert!(matches!(s3, Command::Search { directory: Some(ref x), .. } if x == "/"));
}

#[test]
fn search_dot_directory_resolves_cwd() {
    let s = unwrap_ac(
        Command::Search {
            directory: Some(".".into()),
            query: vec!["q".into()],
        },
        Some("eva"),
    );
    assert!(matches!(s, Command::Search { directory: Some(ref x), .. } if x == "eva"));
}

#[test]
fn find_import_export_strip_leading_slash_keep_sentinel() {
    let f = unwrap_ac(
        Command::Find {
            directory: Some("/notes".into()),
            name: None,
        },
        Some("x"),
    );
    assert!(matches!(f, Command::Find { directory: Some(ref s), .. } if s == "notes"));
    let f2 = unwrap_ac(
        Command::Find {
            directory: Some("/".into()),
            name: None,
        },
        None,
    );
    assert!(matches!(f2, Command::Find { directory: Some(ref s), .. } if s == "/"));

    let im = unwrap_ac(
        Command::Import {
            directory: "/c".into(),
            dir: "d".into(),
            name: None,
        },
        Some("x"),
    );
    assert!(matches!(im, Command::Import { directory, .. } if directory == "c"));
    let im2 = unwrap_ac(
        Command::Import {
            directory: "/".into(),
            dir: "d".into(),
            name: None,
        },
        Some("x"),
    );
    assert!(matches!(im2, Command::Import { directory, .. } if directory == "/"));

    let ex = unwrap_ac(
        Command::Export {
            directory: "/c".into(),
            destination: None,
        },
        Some("x"),
    );
    assert!(matches!(ex, Command::Export { directory, .. } if directory == "c"));
    let ex_root = unwrap_ac(
        Command::Export {
            directory: "/".into(),
            destination: None,
        },
        Some("x"),
    );
    assert!(matches!(ex_root, Command::Export { directory, .. } if directory == "/"));

    let im_dot = unwrap_ac(
        Command::Import {
            directory: ".".into(),
            dir: "d".into(),
            name: None,
        },
        Some("eva"),
    );
    assert!(matches!(im_dot, Command::Import { directory, .. } if directory == "eva"));
    let im_rel = unwrap_ac(
        Command::Import {
            directory: "sub".into(),
            dir: "d".into(),
            name: None,
        },
        Some("eva"),
    );
    assert!(matches!(im_rel, Command::Import { directory, .. } if directory == "eva/sub"));

    let ex_dot = unwrap_ac(
        Command::Export {
            directory: ".".into(),
            destination: None,
        },
        Some("eva"),
    );
    assert!(matches!(ex_dot, Command::Export { directory, .. } if directory == "eva"));

    let mk = unwrap_ac(
        Command::Mkdir {
            parents: false,
            path: "/newcat".into(),
            description: None,
        },
        Some("x"),
    );
    assert!(matches!(mk, Command::Mkdir { path, .. } if path == "newcat"));
}

// --- absolute `/`-prefix bypass tests ---

#[test]
fn ls_slash_at_root_lists_repository_root() {
    let c = unwrap_ac(
        Command::Ls {
            directory: Some("/".into()),
            sort_by_time: false,
            reverse: false,
        },
        None,
    );
    assert!(matches!(c, Command::Ls { directory: Some(ref s), .. } if s == "/"));
}

#[test]
fn ls_slash_inside_cwd_lists_repository_root() {
    let c = unwrap_ac(
        Command::Ls {
            directory: Some("/".into()),
            sort_by_time: false,
            reverse: false,
        },
        Some("notes"),
    );
    assert!(matches!(c, Command::Ls { directory: Some(ref s), .. } if s == "/"));
}

#[test]
fn ls_slash_other_strips_prefix() {
    let c = unwrap_ac(
        Command::Ls {
            directory: Some("/other".into()),
            sort_by_time: false,
            reverse: false,
        },
        Some("notes"),
    );
    assert!(matches!(c, Command::Ls { directory: Some(ref s), .. } if s == "other"));
}

#[test]
fn cat_absolute_path_strips_leading_slash() {
    // `cat /notes/doc` → resolves to "notes/doc"
    let c = unwrap_ac(
        Command::Cat {
            path: "/notes/doc".into(),
            raw: false,
        },
        Some("other"),
    );
    assert!(matches!(c, Command::Cat { path, .. } if path == "notes/doc"));
}

#[test]
fn cat_absolute_path_no_cwd_strips_leading_slash() {
    let c = unwrap_ac(
        Command::Cat {
            path: "/notes/doc".into(),
            raw: false,
        },
        None,
    );
    assert!(matches!(c, Command::Cat { path, .. } if path == "notes/doc"));
}

#[test]
fn rm_absolute_doc_strips_leading_slash() {
    let c = unwrap_ac(
        Command::Rm {
            path: "/cat/doc".into(),
            recursive: false,
        },
        Some("other"),
    );
    assert!(matches!(c, Command::Rm { path, .. } if path == "cat/doc"));
}

#[test]
fn rm_recursive_absolute_cat_strips_leading_slash() {
    let c = unwrap_ac(
        Command::Rm {
            path: "/cat".into(),
            recursive: true,
        },
        Some("other"),
    );
    assert!(matches!(c, Command::Rm { path, .. } if path == "cat"));
}

#[test]
fn put_absolute_path_strips_leading_slash() {
    let c = unwrap_ac(
        Command::Put {
            path: "/cat/doc".into(),
            file: None,
        },
        Some("other"),
    );
    assert!(matches!(c, Command::Put { path, .. } if path == "cat/doc"));
}

#[test]
fn path_first_commands_absolute_slash_strips_with_cwd() {
    for (cmd, expect) in [
        (
            Command::Append {
                path: "/c/d".into(),
                file: None,
            },
            "c/d",
        ),
        (
            Command::Head {
                path: "/c/d".into(),
                lines: 1,
                raw: false,
            },
            "c/d",
        ),
        (
            Command::Tail {
                path: "/c/d".into(),
                tail: TailMode::Last(1),
                follow: false,
                raw: false,
            },
            "c/d",
        ),
        (
            Command::Chat {
                path: "/c/d".into(),
                nickname: None,
                raw: false,
            },
            "c/d",
        ),
        (
            Command::Slice {
                path: "/c/d".into(),
                start: 1,
                end: 2,
                raw: false,
            },
            "c/d",
        ),
        (
            Command::Stat {
                path: "/c/d".into(),
            },
            "c/d",
        ),
        (
            Command::Wc {
                path: "/c/d".into(),
            },
            "c/d",
        ),
        (
            Command::Edit {
                path: "/c/d".into(),
            },
            "c/d",
        ),
        (
            Command::Wait {
                path: "/c/d".into(),
            },
            "c/d",
        ),
        (
            Command::Less {
                path: "/c/d".into(),
            },
            "c/d",
        ),
    ] {
        let out = unwrap_ac(cmd, Some("other"));
        let (Command::Append { path: p, .. }
        | Command::Head { path: p, .. }
        | Command::Tail { path: p, .. }
        | Command::Chat { path: p, .. }
        | Command::Slice { path: p, .. }
        | Command::Stat { path: p }
        | Command::Wc { path: p }
        | Command::Edit { path: p }
        | Command::Wait { path: p }
        | Command::Less { path: p }) = out
        else {
            panic!("unexpected variant");
        };
        assert_eq!(p, expect);
    }
}

#[test]
fn grep_and_mv_absolute_paths_strip() {
    let g = unwrap_ac(
        Command::Grep {
            pattern: "p".into(),
            path: "/c/d".into(),
            max_matches: 0,
            invert_match: false,
        },
        Some("z"),
    );
    assert!(matches!(g, Command::Grep { path, .. } if path == "c/d"));
    let m = unwrap_ac(
        Command::Mv {
            src: "/a/b".into(),
            dst: "/c/d".into(),
        },
        Some("z"),
    );
    assert!(matches!(m, Command::Mv { src, dst } if src == "a/b" && dst == "c/d"));
}
