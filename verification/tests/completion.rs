use tabula::completion::{
    complete_from_plan, join_completion, path_candidates, plan_completion, shell_completion_parent_prefix, CompletionState, Pair,
    Source,
};

fn complete_path(state: &CompletionState, partial: &str, dirs_only: bool) -> Vec<Pair> {
    let Some((parent, prefix)) = shell_completion_parent_prefix(partial, state.cwd.as_deref())
    else {
        return vec![];
    };
    let entries = state.cached_dir_list(&parent).unwrap_or_default();
    path_candidates(&parent, &prefix, &entries, partial, dirs_only, state.cwd.as_deref())
}

fn complete(state: &CompletionState, line: &str, pos: usize) -> (usize, Vec<Pair>) {
    let plan = plan_completion(line, pos);
    let cached = match &plan.source {
        Source::Remote { partial, .. } => {
            match shell_completion_parent_prefix(partial, state.cwd.as_deref()) {
                Some((parent, _)) => state.cached_dir_list(&parent).unwrap_or_default(),
                None => vec![],
            }
        }
        Source::Nothing | Source::LocalEntries { .. } | Source::LocalDirs { .. } => vec![],
    };
    (plan.start, complete_from_plan(&plan, &cached, state.cwd.as_deref()))
}

#[test]
fn cd_completes_all_root_directories_on_empty() {
    let state = CompletionState::from_test_data(vec!["smg".into(), "notes".into()], vec![], None);
    let pairs = state.complete_root_directories("");
    let names: Vec<&str> = pairs.iter().map(|p| p.display.as_str()).collect();
    assert!(names.contains(&"smg"));
    assert!(names.contains(&"notes"));
}

#[test]
fn cd_completes_root_directory_with_prefix() {
    let state = CompletionState::from_test_data(vec!["smg".into(), "notes".into()], vec![], None);
    let pairs = state.complete_root_directories("sm");
    assert_eq!(pairs.len(), 1);
    assert_eq!(pairs[0].display, "smg");
}

#[test]
fn complete_root_directories_leading_slash_strips_for_match_preserves_in_replacement() {
    let state = CompletionState::from_test_data(vec!["smg".into(), "notes".into()], vec![], None);
    let pairs = state.complete_root_directories("/sm");
    assert_eq!(pairs.len(), 1, "leading slash must not prevent matches");
    assert_eq!(pairs[0].display, "smg");
    assert!(
        pairs[0].replacement.starts_with('/'),
        "replacement must keep leading slash"
    );
}

#[test]
fn complete_path_leading_slash_root_prefix_yields_results() {
    let state = CompletionState::from_test_data(
        vec!["smg".into(), "notes".into()],
        vec![("/", vec![("smg", true), ("notes", true)])],
        None,
    );
    let pairs = complete_path(&state, "/smg", false);
    assert!(
        !pairs.is_empty(),
        "leading-slash root-directory prefix must yield completions"
    );
    assert!(
        pairs.iter().all(|p| p.replacement.starts_with('/')),
        "all replacements must keep leading slash"
    );
}

#[test]
fn complete_path_leading_slash_doc_prefix_yields_results() {
    let state = CompletionState::from_test_data(
        vec!["smg".into()],
        vec![("/smg", vec![("doc1", false), ("doc2", false)])],
        None,
    );
    let pairs = complete_path(&state, "/smg/doc", false);
    assert!(
        !pairs.is_empty(),
        "leading-slash doc path must yield completions"
    );
    assert!(
        pairs.iter().all(|p| p.display.starts_with('/')),
        "displays must keep leading slash"
    );
    assert!(
        pairs.iter().all(|p| p.replacement.starts_with('/')),
        "replacements must keep leading slash"
    );
}

#[test]
fn complete_path_plain_prefix_no_cwd() {
    let state = CompletionState::from_test_data(
        vec!["smg".into(), "notes".into()],
        vec![("/", vec![("smg", true), ("notes", true)])],
        None,
    );
    let pairs = complete_path(&state, "sm", false);
    assert_eq!(pairs.len(), 1);
    assert_eq!(pairs[0].display, "smg/");
    assert_eq!(pairs[0].replacement, "smg");
}

#[test]
fn cd_completion_lists_directories_only() {
    let state = CompletionState::from_test_data(
        vec!["_".into()],
        vec![("/", vec![("work", true), ("readme.md", false)])],
        None,
    );
    let (_, pairs) = complete(&state, "cd ", 3);
    assert!(
        pairs.iter().any(|p| p.display.starts_with("work")),
        "expected directory entry"
    );
    assert!(
        !pairs.iter().any(|p| p.display.contains("readme")),
        "files must not appear in cd completion"
    );
}

#[test]
fn mv_after_src_space_completes_empty_partial() {
    let state = CompletionState::from_test_data(
        vec!["_".into()],
        vec![("/", vec![("src", true), ("dst", true)])],
        None,
    );
    let line = "mv src ";
    let (_, pairs) = complete(&state, line, line.len());
    let displays: Vec<&str> = pairs.iter().map(|p| p.display.as_str()).collect();
    assert!(
        displays.contains(&"dst/"),
        "destination candidates expected, got {displays:?}"
    );
}

#[test]
fn completion_trailing_slash_lists_directory_children() {
    let (parent, pfx) = shell_completion_parent_prefix("chats/", None).unwrap();
    assert_eq!(parent, "/chats");
    assert_eq!(pfx, "");
}

#[test]
fn first_word_completes_subcommands() {
    let state = CompletionState::new();
    let (start, pairs) = complete(&state, "ca", 2);
    assert_eq!(start, 0);
    let d: Vec<&str> = pairs.iter().map(|p| p.display.as_str()).collect();
    assert_eq!(d, vec!["cat"]);
    assert_eq!(pairs[0].replacement, "cat ");
}

#[test]
fn ls_after_space_offers_root_paths_and_flags() {
    let state = CompletionState::from_test_data(vec!["_".into()], vec![("/", vec![("b", false), ("a", true)])], None);
    let (start, pairs) = complete(&state, "ls ", 3);
    assert_eq!(start, 3);
    let d: Vec<&str> = pairs.iter().map(|p| p.display.as_str()).collect();
    assert_eq!(d, vec!["/", "a/", "b", "-t", "--time", "-r", "--reverse"]);
}

#[test]
fn flags_complete_from_dash() {
    let state = CompletionState::new();
    let (start, pairs) = complete(&state, "tail --f", 8);
    assert_eq!(start, 5);
    let d: Vec<&str> = pairs.iter().map(|p| p.display.as_str()).collect();
    assert_eq!(d, vec!["--follow"]);
}

#[test]
fn case_insensitive_prefix_and_cwd_relative_display() {
    let state = CompletionState::from_test_data(
        vec!["_".into()],
        vec![("/notes", vec![("Alpha", false), ("beta", false), ("ALSO", true)])],
        Some("notes".into()),
    );
    let pairs = complete_path(&state, "al", false);
    let d: Vec<(&str, &str)> = pairs.iter().map(|p| (p.display.as_str(), p.replacement.as_str())).collect();
    assert_eq!(d, vec![("ALSO/", "ALSO"), ("Alpha", "Alpha ")]);
}

#[test]
fn state_cache_and_invalidation() {
    let mut state = CompletionState::new();
    assert!(state.needs_root_directories());
    state.cache_dir_list("/a", vec![("x".into(), true)]);
    state.cache_dir_list("/a", vec![("y".into(), false)]);
    assert_eq!(state.cached_dir_list("/a").unwrap(), vec![("y".to_string(), false)]);
    assert!(state.cached_dir_list("/b").is_none());
    state.invalidate_all();
    assert!(state.cached_dir_list("/a").is_none());
    assert!(state.needs_root_directories());
}

#[test]
fn cached_listing_reads_back_what_was_stored() {
    let mut st = tabula::completion::CompletionState::new();
    st.cache_dir_list("/a", vec![("x".to_string(), true)]);
    st.cache_dir_list("/b", vec![("y".to_string(), false)]);
    st.cache_dir_list("/a", vec![("z".to_string(), false)]);
    assert_eq!(st.cached_dir_list("/a"), Some(vec![("z".to_string(), false)]));
    assert_eq!(st.cached_dir_list("/b"), Some(vec![("y".to_string(), false)]));
    assert_eq!(st.cached_dir_list("/c"), None);
    st.invalidate_all();
    assert_eq!(st.cached_dir_list("/a"), None);
    assert!(st.needs_root_directories());
}

#[test]
fn local_source_candidates_are_joined_between_the_fixed_ones() {
    let plan = plan_completion("import docs ", 12);
    assert!(matches!(plan.source, Source::LocalEntries { .. }));
    let local = vec![Pair { display: "x/".to_string(), replacement: "x ".to_string() }];
    let joined = join_completion(&plan, &local);
    assert_eq!(joined.len(), plan.head.len() + 1 + plan.tail.len());
    assert_eq!(joined[plan.head.len()].display, "x/");
    let state = CompletionState::from_test_data(vec![], vec![], None);
    assert_eq!(complete_from_plan(&plan, &vec![], state.cwd.as_deref()).len(), plan.head.len() + plan.tail.len());
}
