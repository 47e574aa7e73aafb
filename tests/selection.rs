use jj_manage::repos::{marker_path, step_of, visit, Repo, RepoIter, Visit, WalkEntry};
use jj_manage::update::{contains_or_empty, fetch_args, job_name, select_jobs, Args};

fn s(x: &str) -> String {
    x.to_string()
}

fn path(parts: &[&str]) -> Vec<String> {
    parts.iter().map(|p| p.to_string()).collect()
}

fn args(forge: &[&str], user: &[&str], repo: &[&str]) -> Args {
    Args { forge: path(forge), user: path(user), repo: path(repo) }
}

fn tree() -> (Vec<String>, Vec<Vec<String>>) {
    let base = path(&["/", "root"]);
    let paths = vec![
        path(&["/", "root", "github", "alice", "x"]),
        path(&["/", "root", "github", "bob", "y"]),
        path(&["/", "root", "gitlab", "alice", "z"]),
    ];
    (base, paths)
}

fn names(a: &Args) -> Vec<String> {
    let (base, paths) = tree();
    select_jobs(&base, &paths, a).into_iter().map(|j| j.name).collect()
}

#[test]
fn empty_filter_accepts_anything() {
    assert!(contains_or_empty(&vec![], &s("x")));
}

#[test]
fn filter_accepts_listed_value_only() {
    let vals = vec![s("a"), s("b")];
    assert!(contains_or_empty(&vals, &s("b")));
    assert!(!contains_or_empty(&vals, &s("c")));
}

#[test]
fn matches_ands_dimensions_and_ors_values() {
    let r = Repo { forge: s("github"), user: s("alice"), repo: s("x") };
    assert!(jj_manage::update::matches(&args(&[], &[], &[]), &r));
    assert!(jj_manage::update::matches(&args(&["gitlab", "github"], &[], &[]), &r));
    assert!(jj_manage::update::matches(&args(&["github"], &["alice"], &["x"]), &r));
    assert!(!jj_manage::update::matches(&args(&["github"], &["bob"], &[]), &r));
    assert!(!jj_manage::update::matches(&args(&[], &[], &["y"]), &r));
}

#[test]
fn end_to_end_forge_filter() {
    assert_eq!(names(&args(&["github"], &[], &[])), vec![s("github/alice/x"), s("github/bob/y")]);
}

#[test]
fn end_to_end_user_filter() {
    assert_eq!(names(&args(&[], &["alice"], &[])), vec![s("github/alice/x"), s("gitlab/alice/z")]);
}

#[test]
fn end_to_end_forge_and_repo_filter() {
    assert_eq!(names(&args(&["github"], &[], &["y"])), vec![s("github/bob/y")]);
}

#[test]
fn select_keeps_paths_and_skips_shallow_ones() {
    let base = path(&["/", "root"]);
    let paths = vec![
        path(&["/", "root", "github", "alice"]),
        path(&["/", "other", "github", "alice", "x"]),
        path(&["/", "root", "github", "alice", "group", "deep"]),
    ];
    let jobs = select_jobs(&base, &paths, &args(&[], &[], &[]));
    assert_eq!(jobs.len(), 1);
    assert_eq!(jobs[0].path, paths[2]);
    assert_eq!(jobs[0].name, s("github/alice/deep"));
}

#[test]
fn job_name_joins_segments() {
    let r = Repo { forge: s("codeberg"), user: s("me"), repo: s("tool") };
    assert_eq!(job_name(&r), s("codeberg/me/tool"));
}

#[test]
fn fetch_command_arguments() {
    assert_eq!(fetch_args(), vec![s("git"), s("fetch"), s("--color=always")]);
}

#[test]
fn from_path_takes_forge_user_and_last_segment() {
    let base = path(&["/", "root"]);
    let r = Repo::from_path(&base, &path(&["/", "root", "gh", "u", "a", "b"])).unwrap();
    assert_eq!((r.forge, r.user, r.repo), (s("gh"), s("u"), s("b")));
    assert!(Repo::from_path(&base, &path(&["/", "root", "gh", "u"])).is_none());
    assert!(Repo::from_path(&base, &path(&["/", "elsewhere", "gh", "u", "r"])).is_none());
}

fn entry(is_dir: bool, name: &str, depth: usize) -> WalkEntry {
    WalkEntry { is_dir, name: s(name), path: path(&["/", "root", name]), depth }
}

#[test]
fn visible_directory_is_checked_for_marker() {
    assert!(matches!(visit(&entry(true, "github", 1)), Visit::Check));
}

#[test]
fn hidden_directory_is_pruned() {
    assert!(matches!(visit(&entry(true, ".cache", 1)), Visit::Prune));
}

#[test]
fn hidden_root_is_still_walked() {
    assert!(matches!(visit(&entry(true, ".repos", 0)), Visit::Check));
}

#[test]
fn files_are_ignored() {
    assert!(matches!(visit(&entry(false, "README", 2)), Visit::Ignore));
    assert!(matches!(visit(&entry(false, ".jj", 2)), Visit::Ignore));
}

#[test]
fn marker_is_a_child_directory() {
    assert_eq!(marker_path(&path(&["/", "r", "gh"])), path(&["/", "r", "gh", ".jj"]));
}

#[test]
fn step_reports_and_prunes_marked_directory() {
    let e = entry(true, "x", 3);
    assert_eq!(step_of(Some(Some(e)), true), (Some(Some(path(&["/", "root", "x"]))), true));
}

#[test]
fn step_enters_unmarked_directory() {
    assert_eq!(step_of(Some(Some(entry(true, "x", 3))), false), (Some(None), false));
}

#[test]
fn step_prunes_hidden_directory_without_reporting() {
    assert_eq!(step_of(Some(Some(entry(true, ".hidden", 1))), true), (Some(None), true));
}

#[test]
fn step_ignores_files_and_errors() {
    assert_eq!(step_of(Some(Some(entry(false, "f", 1))), true), (Some(None), false));
    assert_eq!(step_of(Some(None), true), (Some(None), false));
    assert_eq!(step_of(None, false), (None, false));
}

#[test]
fn walk_of_missing_directory_reports_nothing() {
    let mut it = RepoIter::new(&path(&["/", "no-such-dir-for-walk-test"]));
    let mut found = Vec::new();
    while let Some(step) = it.next_step() {
        if let Some(p) = step {
            found.push(p);
        }
    }
    assert!(found.is_empty());
}
