use processfox_core::workspace::{
    build_workspace_tree, EntryLabels, FileKind, ListedEntry, WorkspaceSnapshot,
    WORKSPACE_MAX_ENTRIES,
};

fn entry(name: &str, kind: FileKind) -> ListedEntry {
    ListedEntry {
        name: name.to_string(),
        file_type: Some(kind),
        labels: Some(EntryLabels { size: "5 B".to_string(), modified: "2026-05-02".to_string() }),
    }
}

fn file(name: &str) -> ListedEntry {
    entry(name, FileKind::NonDir)
}

fn dir(name: &str) -> ListedEntry {
    entry(name, FileKind::Dir)
}

fn flat(entries: Vec<ListedEntry>) -> WorkspaceSnapshot {
    let subfolders = entries.iter().map(|_| None).collect();
    WorkspaceSnapshot { root: Some(entries), subfolders }
}

#[test]
fn missing_folder_is_none() {
    let snap = WorkspaceSnapshot { root: None, subfolders: vec![] };
    assert!(build_workspace_tree(&snap).is_none());
}

#[test]
fn empty_folder_is_none() {
    assert!(build_workspace_tree(&flat(vec![])).is_none());
}

#[test]
fn folder_with_only_denylisted_is_none() {
    assert!(build_workspace_tree(&flat(vec![file(".DS_Store")])).is_none());
    assert!(build_workspace_tree(&flat(vec![file("Thumbs.db"), file(".Spotlight-V100")])).is_none());
}

#[test]
fn flat_folder_lists_files_with_size() {
    let tree = build_workspace_tree(&flat(vec![file("notes.md"), file("AGENDA.md")])).unwrap();
    assert!(tree.contains("📄 notes.md  ("), "got:\n{tree}");
    assert!(tree.contains("📄 AGENDA.md  ("), "got:\n{tree}");
    let a = tree.find("AGENDA.md").unwrap();
    let b = tree.find("notes.md").unwrap();
    assert!(a < b, "expected alpha order, got:\n{tree}");
}

#[test]
fn names_sort_case_insensitively() {
    let tree = build_workspace_tree(&flat(vec![file("Zeta.md"), file("alpha.md")])).unwrap();
    assert_eq!(tree, "📄 alpha.md  (5 B · 2026-05-02)\n📄 Zeta.md  (5 B · 2026-05-02)\n");
}

#[test]
fn dirs_listed_before_files() {
    let tree = build_workspace_tree(&flat(vec![file("aaa.md"), dir("reports")])).unwrap();
    let d = tree.find("📁 reports/").unwrap();
    let f = tree.find("📄 aaa.md").unwrap();
    assert!(d < f, "dirs should sort before files, got:\n{tree}");
}

#[test]
fn depth_cap_shows_level2_dir_header_without_contents() {
    // root/a/ holds shallow.md and the folder b/, whose contents are not
    // listed at all.
    let snap = WorkspaceSnapshot {
        root: Some(vec![dir("a")]),
        subfolders: vec![Some(vec![dir("b"), file("shallow.md")])],
    };
    let tree = build_workspace_tree(&snap).unwrap();
    assert_eq!(tree, "📁 a/\n  📁 b/\n  📄 shallow.md  (5 B · 2026-05-02)\n");
    assert!(!tree.contains("deep.md"));
}

#[test]
fn entry_cap_truncates_with_marker() {
    let files = (0..WORKSPACE_MAX_ENTRIES + 10).map(|i| file(&format!("f{i:03}.md"))).collect();
    let tree = build_workspace_tree(&flat(files)).unwrap();
    assert!(tree.contains("weitere Einträge ausgelassen"), "got:\n{tree}");
    let listed = tree.matches("📄 ").count();
    assert!(listed <= WORKSPACE_MAX_ENTRIES, "emitted {listed} > cap {WORKSPACE_MAX_ENTRIES}");
    assert_eq!(listed, WORKSPACE_MAX_ENTRIES);
    assert!(tree.ends_with("weitere Einträge ausgelassen — nutze list_folder/grep_in_files\n"));
}

#[test]
fn symlinked_dir_is_not_descended() {
    let snap = WorkspaceSnapshot {
        root: Some(vec![dir("real"), entry("link", FileKind::Symlink), file("plain.md")]),
        subfolders: vec![Some(vec![file("secret.md")]), Some(vec![file("secret.md")]), None],
    };
    let tree = build_workspace_tree(&snap).unwrap();
    assert!(tree.contains("📄 plain.md"), "got:\n{tree}");
    assert!(tree.contains("📁 real/"), "got:\n{tree}");
    assert!(!tree.contains("link"), "symlink should be skipped, got:\n{tree}");
    assert_eq!(tree.matches("secret.md").count(), 1);
}

#[test]
fn entries_without_type_or_metadata_are_skipped() {
    let no_type = ListedEntry { name: "x.md".to_string(), file_type: None, labels: None };
    let no_meta = ListedEntry { name: "y.md".to_string(), file_type: Some(FileKind::NonDir), labels: None };
    let tree = build_workspace_tree(&flat(vec![no_type, no_meta, file("z.md")])).unwrap();
    assert_eq!(tree, "📄 z.md  (5 B · 2026-05-02)\n");
}

#[test]
fn cap_counts_nested_lines_too() {
    let children: Vec<ListedEntry> = (0..45).map(|i| file(&format!("c{i:02}.md"))).collect();
    let snap = WorkspaceSnapshot {
        root: Some(vec![dir("big"), file("after.md")]),
        subfolders: vec![Some(children), None],
    };
    let tree = build_workspace_tree(&snap).unwrap();
    assert_eq!(tree.lines().count(), WORKSPACE_MAX_ENTRIES + 1);
    assert!(!tree.contains("after.md"));
}
