use fff_tui::files::{
    digest_key, file_match, INDEX_DELETED, INDEX_MODIFIED, INDEX_NEW, INDEX_RENAMED, WT_DELETED,
    WT_MODIFIED, WT_NEW, WT_RENAMED,
};
use fff_tui::paths::{
    cache_dir, history_file, runtime_dir, CACHE_SUBDIR, LOCAL_CACHE_DIR,
    OLD_RUNTIME_DIR_VARIABLE, RUNTIME_DIR_VARIABLE, RUNTIME_SUBDIR,
};
use fff_tui::{
    file_search_options, file_search_view, frecency_badge, frecency_db_name, git_kind,
    history_db_name, project_key, FileHit, GitKind, GitStatus,
};
use std::path::PathBuf;

fn status(bits: u32) -> Option<GitStatus> {
    Some(GitStatus { bits })
}

fn hit(path: &str, bits: u32, scores: (i32, i32, i32)) -> FileHit {
    FileHit {
        path: PathBuf::from(format!("/root/{}", path)),
        relative_path: path.to_string(),
        file_name: path.rsplit('/').next().unwrap().to_string(),
        git_status: status(bits),
        total_score: scores.0,
        access_score: scores.1,
        modification_score: scores.2,
    }
}

#[test]
fn frecency_badge_thresholds_match_prototype() {
    assert_eq!(frecency_badge(0, 0, 0), None);
    assert_eq!(frecency_badge(1, 0, 0).unwrap().icon, "•");
    assert_eq!(frecency_badge(3, 0, 0).unwrap().icon, "✨");
    assert_eq!(frecency_badge(3, 4, 0).unwrap().icon, "⭐");
    assert_eq!(frecency_badge(3, 4, 6).unwrap().icon, "🔥");
}

#[test]
fn a_badge_shows_a_positive_total() {
    assert_eq!(frecency_badge(-5, 10, 10), None);
    assert_eq!(frecency_badge(2, 3, 5).unwrap().icon, "•");
    assert_eq!(frecency_badge(2, 3, 5).unwrap().score, 2);
    assert_eq!(frecency_badge(1, 0, 6).unwrap().icon, "🔥");
    assert_eq!(frecency_badge(i32::MAX, 4, 5).unwrap().score, i32::MAX);
}

#[test]
fn flags_are_those_of_git() {
    assert_eq!(INDEX_NEW, git2::Status::INDEX_NEW.bits());
    assert_eq!(INDEX_MODIFIED, git2::Status::INDEX_MODIFIED.bits());
    assert_eq!(INDEX_DELETED, git2::Status::INDEX_DELETED.bits());
    assert_eq!(INDEX_RENAMED, git2::Status::INDEX_RENAMED.bits());
    assert_eq!(WT_NEW, git2::Status::WT_NEW.bits());
    assert_eq!(WT_MODIFIED, git2::Status::WT_MODIFIED.bits());
    assert_eq!(WT_DELETED, git2::Status::WT_DELETED.bits());
    assert_eq!(WT_RENAMED, git2::Status::WT_RENAMED.bits());
}

#[test]
fn each_flag_has_its_kind() {
    assert_eq!(git_kind(None), GitKind::Clean);
    assert_eq!(git_kind(status(0)), GitKind::Clean);
    assert_eq!(git_kind(status(git2::Status::IGNORED.bits())), GitKind::Clean);
    assert_eq!(git_kind(status(git2::Status::WT_TYPECHANGE.bits())), GitKind::Clean);
    for bits in [WT_DELETED, INDEX_DELETED] {
        assert_eq!(git_kind(status(bits)), GitKind::Deleted);
    }
    for bits in [WT_RENAMED, INDEX_RENAMED] {
        assert_eq!(git_kind(status(bits)), GitKind::Renamed);
    }
    for bits in [WT_NEW, INDEX_NEW] {
        assert_eq!(git_kind(status(bits)), GitKind::Added);
    }
    for bits in [WT_MODIFIED, INDEX_MODIFIED] {
        assert_eq!(git_kind(status(bits)), GitKind::Modified);
    }
}

#[test]
fn of_several_flags_the_gravest_counts() {
    assert_eq!(git_kind(status(WT_MODIFIED | INDEX_NEW)), GitKind::Added);
    assert_eq!(git_kind(status(WT_MODIFIED | INDEX_RENAMED | INDEX_NEW)), GitKind::Renamed);
    assert_eq!(git_kind(status(u32::MAX)), GitKind::Deleted);
    assert_eq!(git_kind(status(INDEX_DELETED | WT_NEW)), GitKind::Deleted);
}

#[test]
fn a_project_key_is_the_beginning_of_a_digest() {
    assert_eq!(project_key("abc"), "a9993e364706");
    assert_eq!(project_key(""), "da39a3ee5e6b");
    assert_ne!(project_key("/home/a"), project_key("/home/b"));
    assert_eq!(digest_key(&vec![0, 1, 15, 16, 171, 255, 7]), "00010f10abff");
}

#[test]
fn database_names_carry_the_key() {
    assert_eq!(frecency_db_name("a9993e364706"), "a9993e364706-frecency.mdb");
    assert_eq!(history_db_name("a9993e364706"), "a9993e364706-history.mdb");
}

#[test]
fn a_search_asks_for_one_page() {
    let options = file_search_options("");
    assert_eq!(options.min_combo_count, 1);
    assert_eq!((options.offset, options.limit), (0, 200));
    assert_eq!(options.max_threads, 0);
    assert_eq!(options.combo_boost_score_multiplier, 100);
    assert_eq!(file_search_options("x").min_combo_count, 0);
}

#[test]
fn found_files_are_listed_in_order() {
    let view = file_search_view(
        vec![hit("src/b.rs", WT_NEW, (3, 1, 0)), hit("a.rs", 0, (0, 0, 0))],
        17,
        "/root",
    );
    assert_eq!(view.loaded, 2);
    assert_eq!(view.total_matched, 17);
    assert_eq!(view.root_display, "/root");
    assert_eq!(view.matches[0].relative_path, "src/b.rs");
    assert_eq!(view.matches[0].file_name, "b.rs");
    assert_eq!(view.matches[0].path, PathBuf::from("/root/src/b.rs"));
    assert_eq!(view.matches[0].git, GitKind::Added);
    assert_eq!(view.matches[0].badge.as_ref().unwrap().icon, "✨");
    assert_eq!(view.matches[1].git, GitKind::Clean);
    assert_eq!(view.matches[1].badge, None);
}

#[test]
fn a_found_file_keeps_its_scores_apart() {
    let shown = file_match(hit("a", WT_DELETED, (2, 9, 1)));
    assert_eq!(shown.badge.as_ref().unwrap().icon, "⭐");
    assert_eq!(shown.badge.as_ref().unwrap().score, 2);
    assert_eq!(shown.git, GitKind::Deleted);
}

#[test]
fn the_runtime_directory_goes_by_precedence() {
    let path = |name: &str| Some(PathBuf::from(name));
    let here = || PathBuf::from(".");
    assert_eq!(runtime_dir(path("a"), path("b"), path("c"), here()), PathBuf::from("a"));
    assert_eq!(runtime_dir(None, path("b"), path("c"), here()), PathBuf::from("b"));
    assert_eq!(runtime_dir(None, None, path("c"), here()), PathBuf::from("c"));
    assert_eq!(runtime_dir(None, None, None, here()), PathBuf::from("."));
}

#[test]
fn the_cache_directory_and_history_file_have_fallbacks() {
    let path = |name: &str| Some(PathBuf::from(name));
    assert_eq!(cache_dir(path("c"), PathBuf::from("l")), PathBuf::from("c"));
    assert_eq!(cache_dir(None, PathBuf::from("l")), PathBuf::from("l"));
    assert_eq!(history_file(path("h"), path("u"), PathBuf::from("l")), PathBuf::from("h"));
    assert_eq!(history_file(None, path("u"), PathBuf::from("l")), PathBuf::from("u"));
    assert_eq!(history_file(None, None, PathBuf::from("l")), PathBuf::from("l"));
}

#[test]
fn settings_and_directories_have_their_names() {
    assert_eq!(RUNTIME_DIR_VARIABLE, "FFF_SHELL_WIDGET_RUNTIME_DIR");
    assert_eq!(OLD_RUNTIME_DIR_VARIABLE, "FFF_CTRL_T_RUNTIME_DIR");
    assert_eq!(RUNTIME_SUBDIR, ".local/share/fff-shell-widget");
    assert_eq!(CACHE_SUBDIR, "fff-shell-widget");
    assert_eq!(LOCAL_CACHE_DIR, ".cache/fff-shell-widget");
}
