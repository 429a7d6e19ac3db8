use tabula::ls::ListedEntryRow;
use tabula::wildcard::{
    compile_name_glob, glob_scope, read_file_paths, rm_document_hits, rm_glob_target,
    rm_root_targets, select_glob_entries, split_final_segment, RmGlob,
};

fn row(name: &str, kind: i64) -> ListedEntryRow {
    ListedEntryRow {
        id: 1,
        kind,
        name: name.to_string(),
        description: None,
        created_at: 0,
        modified_at: 0,
        accessed_at: 0,
        size_bytes: None,
        recursive_file_count: 0,
    }
}

#[test]
fn name_globs_compile_or_explain() {
    let g = compile_name_glob("*.md").unwrap();
    assert_eq!(g.pattern(), "*.md");
    let e = compile_name_glob("a[").err().unwrap();
    assert!(e.starts_with("invalid glob pattern: "));
    assert!(e.len() > "invalid glob pattern: ".len());
}

#[test]
fn final_segment_split() {
    assert_eq!(split_final_segment("/docs/a.md"), Some(("/docs".to_string(), "a.md".to_string())));
    assert_eq!(split_final_segment("/a.md"), Some(("/".to_string(), "a.md".to_string())));
    assert_eq!(split_final_segment("a.md"), None);
}

#[test]
fn glob_scope_reads_final_segment() {
    let s = glob_scope("/docs/*.md").unwrap().unwrap();
    assert_eq!(s.parent, "/docs");
    assert_eq!(s.glob.pattern(), "*.md");
    let s = glob_scope("/*.md").unwrap().unwrap();
    assert_eq!(s.parent, "/");
    assert!(glob_scope("/docs/a.md").unwrap().is_none());
    assert!(glob_scope("/").unwrap().is_none());
    assert!(glob_scope("/d*/a.md").unwrap().is_none());
    assert_eq!(
        glob_scope("/d*/x*").err(),
        Some("wildcards are only allowed in the final path segment".to_string())
    );
    assert_eq!(glob_scope("x*").err(), Some("invalid path".to_string()));
    assert!(glob_scope("/d/a[").err().unwrap().starts_with("invalid glob pattern: "));
}

#[test]
fn glob_selects_matching_entries_sorted_by_path() {
    let scope = glob_scope("/docs/*.md").unwrap().unwrap();
    let rows = vec![row("b.md", 1), row("notes.txt", 1), row("a.md", 1), row("sub", 0)];
    let out = select_glob_entries(&scope, rows, "/docs/*.md").unwrap();
    let paths: Vec<&str> = out.iter().map(|(p, _)| p.as_str()).collect();
    assert_eq!(paths, vec!["/docs/a.md", "/docs/b.md"]);
    assert_eq!(out[0].1.name, "a.md");
    let none = select_glob_entries(&scope, vec![row("x.txt", 1)], "/docs/*.md");
    assert_eq!(none.err(), Some("no entries match /docs/*.md".to_string()));
}

#[test]
fn glob_star_does_not_cross_slash() {
    let scope = glob_scope("/*").unwrap().unwrap();
    let out = select_glob_entries(&scope, vec![row("a", 0), row("x/y", 1)], "/*").unwrap();
    assert_eq!(out.len(), 1);
    assert_eq!(out[0].0, "/a");
}

#[test]
fn read_paths_keep_documents_sorted() {
    let entries = vec![
        ("/d/z.md".to_string(), row("z.md", 1)),
        ("/d/dir.md".to_string(), row("dir.md", 0)),
        ("/d/a.md".to_string(), row("a.md", 1)),
    ];
    assert_eq!(read_file_paths(entries, "/d/*.md").unwrap(), vec!["/d/a.md", "/d/z.md"]);
    let dirs = vec![("/d/x".to_string(), row("x", 0))];
    assert_eq!(read_file_paths(dirs, "/d/*").err(), Some("no files match /d/*".to_string()));
}

#[test]
fn rm_glob_targets() {
    assert!(rm_glob_target("a.md", false).unwrap().is_none());
    assert_eq!(
        rm_glob_target("/docs/*.md", true).err(),
        Some("rm: -r/--recursive with globs: use literal directory path (no wildcards in parent)".to_string())
    );
    match rm_glob_target("docs/*.md", false).unwrap().unwrap() {
        RmGlob::Documents { parent, glob } => {
            assert_eq!(parent, "/docs");
            assert_eq!(glob.pattern(), "*.md");
        }
        _ => panic!("expected documents of one directory"),
    }
    assert_eq!(
        rm_glob_target("d*/x.md", false).err(),
        Some("rm: parent path must be literal (no wildcards)".to_string())
    );
    match rm_glob_target("*.md", true).unwrap().unwrap() {
        RmGlob::RootEntries { glob } => assert_eq!(glob.pattern(), "*.md"),
        _ => panic!("expected root entries"),
    }
}

#[test]
fn rm_glob_hits_are_sorted() {
    let g = compile_name_glob("*.md").unwrap();
    let docs = vec![
        ("b.md".to_string(), "/d/b.md".to_string()),
        ("a.md".to_string(), "/d/a.md".to_string()),
        ("c.txt".to_string(), "/d/c.txt".to_string()),
    ];
    assert_eq!(rm_document_hits(&g, docs, "/d/*.md").unwrap(), vec!["/d/a.md", "/d/b.md"]);
    assert_eq!(
        rm_document_hits(&g, vec![], "/d/*.md").err(),
        Some("rm: no documents match /d/*.md".to_string())
    );
    let g = compile_name_glob("d*").unwrap();
    let names = vec!["dx".to_string(), "e".to_string(), "docs".to_string()];
    assert_eq!(rm_root_targets(&g, names, "d*").unwrap(), vec!["/docs", "/dx"]);
    assert_eq!(
        rm_root_targets(&g, vec!["e".to_string()], "d*").err(),
        Some("rm: no entries match d*".to_string())
    );
}

#[test]
fn too_deeply_nested_pattern_is_refused_not_a_panic() {
    let pattern = format!("{}x{}", "{a,".repeat(300), "}".repeat(300));
    let e = compile_name_glob(&pattern).err().unwrap();
    assert!(e.starts_with("invalid glob pattern: "));
    assert!(compile_name_glob("{a,{b,c}}.md").is_ok());
}
