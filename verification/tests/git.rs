use elx::git::{
    get_statuses, key_of, reports_ignored, status_for_path, status_of_item, status_path, summarize_statuses, GitStatus,
    StatusItem, StatusMap,
};

fn raw(items: &[(&str, GitStatus)]) -> Vec<(String, GitStatus)> {
    items.iter().map(|(p, s)| (p.to_string(), *s)).collect()
}

#[test]
fn directories_get_summaries_up_to_the_work_directory() {
    let m = summarize_statuses(
        &raw(&[
            ("/repo/src/deep/a.rs", GitStatus::Modified),
            ("/repo/new/file", GitStatus::Untracked),
            ("/repo/cache", GitStatus::Ignored),
        ]),
        "/repo",
    );
    assert_eq!(m.get("/repo/src/deep/a.rs"), Some(GitStatus::Modified));
    assert_eq!(m.get("/repo/src/deep"), Some(GitStatus::Modified));
    assert_eq!(m.get("/repo/src"), Some(GitStatus::Modified));
    assert_eq!(m.get("/repo"), Some(GitStatus::Modified));
    assert_eq!(m.get("/repo/new"), Some(GitStatus::Untracked));
    assert_eq!(m.get("/repo/cache"), Some(GitStatus::Ignored));
    assert_eq!(m.get("/"), None);
    assert_eq!(m.get("/repo/other"), None);
}

#[test]
fn untracked_only_gives_untracked_and_ignored_counts_for_nothing() {
    let m = summarize_statuses(
        &raw(&[("/w/d/u", GitStatus::Untracked), ("/w/d/i", GitStatus::Ignored)]),
        "/w",
    );
    assert_eq!(m.get("/w/d"), Some(GitStatus::Untracked));
    assert_eq!(m.get("/w"), Some(GitStatus::Untracked));
    let only_ignored = summarize_statuses(&raw(&[("/w/x/i", GitStatus::Ignored)]), "/w");
    assert_eq!(only_ignored.get("/w/x"), None);
}

#[test]
fn deleted_and_added_files_mark_directories_modified() {
    let m = summarize_statuses(
        &raw(&[("/w/a/gone", GitStatus::Deleted), ("/w/b/new", GitStatus::Added), ("/w/b/u", GitStatus::Untracked)]),
        "/w",
    );
    assert_eq!(m.get("/w/a"), Some(GitStatus::Modified));
    assert_eq!(m.get("/w/b"), Some(GitStatus::Modified));
}

#[test]
fn a_reported_path_keeps_its_own_status_and_the_later_report_wins() {
    let m = summarize_statuses(
        &raw(&[("/w/d", GitStatus::Untracked), ("/w/d/f", GitStatus::Modified), ("/w/e", GitStatus::Added), ("/w/e", GitStatus::Deleted)]),
        "/w",
    );
    assert_eq!(m.get("/w/d"), Some(GitStatus::Untracked));
    assert_eq!(m.get("/w/e"), Some(GitStatus::Deleted));
}

#[test]
fn lookup_finds_ignored_ancestors() {
    let m = summarize_statuses(&raw(&[("/w/cache", GitStatus::Ignored), ("/w/f", GitStatus::Modified)]), "/w");
    assert_eq!(status_for_path(&m, "/w/cache/deep/file", None), Some(GitStatus::Ignored));
    assert_eq!(status_for_path(&m, "/w/f", None), Some(GitStatus::Modified));
    assert_eq!(status_for_path(&m, "/w/clean", None), None);
}

#[test]
fn lookup_resolves_the_parent_not_the_link() {
    let m = summarize_statuses(&raw(&[("/real/dir/link", GitStatus::Added)]), "/real");
    assert_eq!(status_for_path(&m, "/alias/link", Some("/real/dir")), Some(GitStatus::Added));
    assert_eq!(status_path("/alias/link", Some("/real/dir")), "/real/dir/link");
    assert_eq!(status_path("/alias/link", None), "/alias/link");
    assert_eq!(status_path("/", Some("/")), "/");
}

#[test]
fn paths_compare_by_components() {
    let mut m = StatusMap::new();
    m.insert("/a/b/", GitStatus::Modified);
    assert_eq!(m.get("/a//b"), Some(GitStatus::Modified));
    assert_eq!(m.get("/a/./b"), Some(GitStatus::Modified));
    assert_eq!(m.get("a/b"), None);
    let k = key_of("/x//y/");
    assert!(k.absolute);
    assert_eq!(k.parts, vec!["x".to_string(), "y".to_string()]);
}

#[test]
fn report_items_give_statuses_under_the_work_directory() {
    let items: Vec<(String, StatusItem)> = vec![
        ("nested/tracked".to_string(), StatusItem::WorktreeChanged),
        ("gone".to_string(), StatusItem::WorktreeRemoved),
        ("new/deep/file".to_string(), StatusItem::Untracked),
        ("cache".to_string(), StatusItem::Ignored),
        ("staged".to_string(), StatusItem::IndexAdded),
        ("fresh".to_string(), StatusItem::WorktreeUnchanged),
        ("clean/x".to_string(), StatusItem::OtherDirEntry),
    ];
    let m = get_statuses("/repo", &items);
    assert_eq!(m.get("/repo/nested/tracked"), Some(GitStatus::Modified));
    assert_eq!(m.get("/repo/nested"), Some(GitStatus::Modified));
    assert_eq!(m.get("/repo/gone"), Some(GitStatus::Deleted));
    assert_eq!(m.get("/repo/new"), Some(GitStatus::Untracked));
    assert_eq!(m.get("/repo/new/deep"), Some(GitStatus::Untracked));
    assert_eq!(m.get("/repo/cache"), Some(GitStatus::Ignored));
    assert_eq!(m.get("/repo/staged"), Some(GitStatus::Added));
    assert_eq!(m.get("/repo/fresh"), None);
    assert_eq!(m.get("/repo/clean"), None);
    assert_eq!(m.get("/repo"), Some(GitStatus::Modified));
    assert_eq!(status_for_path(&m, "/repo/cache/deep/file", None), Some(GitStatus::Ignored));
}

#[test]
fn item_kinds_map_to_statuses() {
    assert_eq!(status_of_item(StatusItem::WorktreeConflict), Some(GitStatus::Modified));
    assert_eq!(status_of_item(StatusItem::IndexDeleted), Some(GitStatus::Deleted));
    assert_eq!(status_of_item(StatusItem::IndexModified), Some(GitStatus::Modified));
    assert_eq!(status_of_item(StatusItem::IndexRewrite), Some(GitStatus::Modified));
    assert_eq!(status_of_item(StatusItem::WorktreeRewrite), None);
}

#[test]
fn ignored_paths_are_reported_for_single_files_or_without_gitignore() {
    assert!(!reports_ignored(true, true));
    assert!(reports_ignored(true, false));
    assert!(reports_ignored(false, true));
}
