use omena_lsp_server::path::workspace_folder_uri_equivalent;
use omena_lsp_server::registry::{uri_is_equal_or_descendant, WorkspaceRuntimeRegistry};

#[test]
fn resolves_owner_by_longest_workspace_root() {
    let mut registry = WorkspaceRuntimeRegistry::default();
    registry.insert("file:///repo", "repo");
    registry.insert("file:///repo/packages/app", "app");

    assert_eq!(
        registry.resolve_owner_uri("file:///repo/packages/app/src/Button.module.scss"),
        Some("file:///repo/packages/app".to_string()),
    );
}

#[test]
fn path_boundaries_prevent_prefix_only_ownership() {
    let mut registry = WorkspaceRuntimeRegistry::default();
    registry.insert("file:///repo/app", "app");

    assert_eq!(
        registry.resolve_owner_uri("file:///repo/app2/src/Button.module.scss"),
        None,
    );
}

#[test]
fn workspace_folder_compatibility_normalizes_percent_encoded_route_groups() {
    assert!(workspace_folder_uri_equivalent(
        "file:///workspace/app/(marketing)",
        "file:///workspace/app/%28marketing%29",
    ));
}

#[test]
fn folder_equivalence_rejects_different_folders_and_bad_escapes() {
    assert!(!workspace_folder_uri_equivalent(
        "file:///workspace/app",
        "file:///workspace/app2",
    ));
    assert!(workspace_folder_uri_equivalent(
        "file:///workspace/%2",
        "file:///workspace/%2",
    ));
    assert!(!workspace_folder_uri_equivalent(
        "file:///workspace/%2",
        "file:///workspace/%2/",
    ));
    assert!(workspace_folder_uri_equivalent(
        "file:///workspace/./app/",
        "file:///workspace/lib/../app",
    ));
    assert!(!workspace_folder_uri_equivalent(
        "untitled:one",
        "untitled:two",
    ));
}

#[test]
fn insert_replaces_and_remove_forgets_folders() {
    let mut registry = WorkspaceRuntimeRegistry::new();
    registry.insert("file:///b", "b");
    registry.insert("file:///a", "a");
    registry.insert("file:///b", "renamed");
    assert_eq!(registry.len(), 2);
    let folders = registry.folder_snapshots();
    assert_eq!(folders[0].uri, "file:///a");
    assert_eq!(folders[1].name, "renamed");
    assert_eq!(registry.get("file:///b").map(|f| f.name.as_str()), Some("renamed"));
    assert_eq!(registry.remove("file:///a").map(|f| f.name), Some("a".to_string()));
    assert_eq!(registry.get("file:///a"), None);
    assert_eq!(registry.remove("file:///a"), None);
    assert_eq!(registry.len(), 1);
    registry.clear();
    assert_eq!(registry.len(), 0);
}

#[test]
fn owner_falls_back_to_uri_prefix_for_non_file_uris() {
    let mut registry = WorkspaceRuntimeRegistry::new();
    registry.insert("vscode-vfs://host/repo", "repo");
    assert_eq!(
        registry.resolve_owner_uri("vscode-vfs://host/repo/src/App.tsx"),
        Some("vscode-vfs://host/repo".to_string()),
    );
    assert_eq!(registry.resolve_owner_uri("vscode-vfs://host/repository/x"), None);
    assert!(uri_is_equal_or_descendant(b"file:///a", b"file:///a/b"));
    assert!(!uri_is_equal_or_descendant(b"file:///a", b"file:///ab"));
    assert!(uri_is_equal_or_descendant(b"file:///a", b"file:///a"));
}

#[test]
fn path_root_beats_uri_prefix_and_ties_go_to_the_last_folder() {
    let mut registry = WorkspaceRuntimeRegistry::new();
    registry.insert("file:///repo/%61pp", "encoded");
    registry.insert("file:///repo/app", "plain");
    // Both roots normalise to /repo/app at the same depth; the longer URI wins.
    assert_eq!(
        registry.resolve_owner_uri("file:///repo/app/x.css"),
        Some("file:///repo/%61pp".to_string()),
    );
}

#[test]
fn folder_equivalence_is_symmetric_and_normalizes_dot_segments() {
    assert!(workspace_folder_uri_equivalent("file:///w/./a", "file:///w/a"));
    assert!(workspace_folder_uri_equivalent("file:///w/a", "file:///w/./a"));
    assert!(workspace_folder_uri_equivalent("untitled:x", "untitled:x"));
    assert!(!workspace_folder_uri_equivalent("untitled:x", "untitled:./x"));
}
