use context_map::walker::{
    collect_repo_entries, classify_source_file, ignored_dirs, collect_source_files, should_descend,
    RepoEntry, SourceFile, SourceKind,
};

#[test]
fn classifies_by_extension() {
    assert_eq!(classify_source_file("src/index.ts"), Some(SourceKind::Ts));
    assert_eq!(classify_source_file("src/view.tsx"), Some(SourceKind::Tsx));
    assert_eq!(classify_source_file("src/comp.vue"), Some(SourceKind::Vue));
    assert_eq!(classify_source_file("index.ts"), Some(SourceKind::Ts));
    assert_eq!(classify_source_file("src/ignored.props.ts"), Some(SourceKind::Ts));
}

#[test]
fn declaration_files_and_other_files_are_no_sources() {
    assert_eq!(classify_source_file("src/types.d.ts"), None);
    assert_eq!(classify_source_file("types.d.ts"), None);
    assert_eq!(classify_source_file("src/kept.d.tsx"), Some(SourceKind::Tsx));
    assert_eq!(classify_source_file("README.md"), None);
    assert_eq!(classify_source_file("src/ts"), None);
    assert_eq!(classify_source_file("src/.ts"), None);
    assert_eq!(classify_source_file("src.ts/readme"), None);
    assert_eq!(classify_source_file("src/a.TS"), None);
    assert_eq!(classify_source_file(""), None);
    assert_eq!(classify_source_file("a."), None);
    assert_eq!(classify_source_file("..ts"), Some(SourceKind::Ts));
}

#[test]
fn five_directory_names_are_ignored() {
    assert_eq!(
        ignored_dirs(),
        vec![".git", "node_modules", "dist", "build", "target"]
    );
}

#[test]
fn walk_skips_ignored_and_hidden_directories() {
    assert!(should_descend("src", true, 1));
    assert!(!should_descend("node_modules", true, 1));
    assert!(!should_descend("dist", true, 3));
    assert!(!should_descend("target", true, 0));
    assert!(!should_descend(".git", true, 1));
    assert!(!should_descend(".vscode", true, 2));
    assert!(should_descend(".hidden-root", true, 0));
    assert!(should_descend("node_modules", false, 1));
    assert!(should_descend(".env", false, 1));
    assert!(should_descend("", true, 1));
}

#[test]
fn source_files_are_selected_and_ordered_part_by_part() {
    let paths: Vec<String> = [
        "src/view.tsx",
        "src/types.d.ts",
        "src-b/x.ts",
        "src/nested/util.ts",
        "src/index.ts",
        "notes.txt",
        "src/comp.vue",
    ]
    .iter()
    .map(|p| p.to_string())
    .collect();
    let files = collect_source_files(&paths);
    let listed: Vec<(&str, SourceKind)> = files.iter().map(|f| (f.path.as_str(), f.kind)).collect();
    assert_eq!(
        listed,
        vec![
            ("src/comp.vue", SourceKind::Vue),
            ("src/index.ts", SourceKind::Ts),
            ("src/nested/util.ts", SourceKind::Ts),
            ("src/view.tsx", SourceKind::Tsx),
            ("src-b/x.ts", SourceKind::Ts),
        ]
    );
    let mut by_path: Vec<std::path::PathBuf> = files.iter().map(|f| std::path::PathBuf::from(&f.path)).collect();
    let as_listed = by_path.clone();
    by_path.sort();
    assert_eq!(by_path, as_listed);
    assert_eq!(
        collect_source_files(&vec![]),
        Vec::<SourceFile>::new()
    );
}

#[test]
fn repo_entries_below_the_root_are_ordered_by_path() {
    let entry = |path: &str, is_dir: bool, depth: usize| RepoEntry {
        path: path.to_string(),
        is_dir,
        depth,
    };
    let arranged = collect_repo_entries(&vec![
        entry("", true, 0),
        entry("a/root.txt", false, 2),
        entry("a", false, 1),
        entry("a/b", true, 2),
        entry("a", true, 1),
        entry("a-b", true, 1),
    ]);
    assert_eq!(
        arranged,
        vec![
            entry("a", true, 1),
            entry("a", false, 1),
            entry("a/b", true, 2),
            entry("a/root.txt", false, 2),
            entry("a-b", true, 1),
        ]
    );
}
