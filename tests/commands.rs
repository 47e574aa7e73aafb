use jj_manage::config::{push_path, Config, ConfigError};
use jj_manage::forge::{Forge, NamedForge};
use jj_manage::get::{get_remote, get_repo, plan, Args, CloneKind, GetConfig, GetError};
use jj_manage::list::display_path;
use jj_manage::resolve::{resolve, ResolveError, Target};

fn s(x: &str) -> String {
    x.to_string()
}

fn path(parts: &[&str]) -> Vec<String> {
    parts.iter().map(|p| p.to_string()).collect()
}

fn config(kind: CloneKind) -> Config {
    Config {
        base: s("repos"),
        user: s("me"),
        default_forge: s("github"),
        forges: vec![
            NamedForge { name: s("github"), info: Forge { url: s("github.com") } },
            NamedForge { name: s("codeberg"), info: Forge { url: s("codeberg.org") } },
        ],
        colocate: true,
        get: GetConfig { clone_kind: kind },
    }
}

fn get_args(https: bool, ssh: bool, forge: Option<&str>, repo: &str) -> Args {
    Args { https, ssh, forge: forge.map(s), repo: s(repo) }
}

#[test]
fn repo_without_slash_belongs_to_user() {
    let c = config(CloneKind::Ssh);
    assert_eq!(get_repo(&c, &s("tool")), s("me/tool"));
    assert_eq!(get_repo(&c, &s("other/tool")), s("other/tool"));
}

#[test]
fn remote_follows_flags_then_settings() {
    let ssh = config(CloneKind::Ssh);
    let https = config(CloneKind::Https);
    let url = s("github.com");
    let p = s("me/tool");
    assert_eq!(get_remote(&ssh, &get_args(false, false, None, "x"), &url, &p), s("git@github.com:me/tool"));
    assert_eq!(get_remote(&https, &get_args(false, false, None, "x"), &url, &p), s("github.com/me/tool"));
    assert_eq!(get_remote(&ssh, &get_args(true, false, None, "x"), &url, &p), s("github.com/me/tool"));
    assert_eq!(get_remote(&https, &get_args(false, true, None, "x"), &url, &p), s("git@github.com:me/tool"));
}

#[test]
fn default_clone_kind_is_ssh() {
    assert!(matches!(GetConfig::default().clone_kind, CloneKind::Ssh));
}

#[test]
fn named_forge_lookup() {
    let c = config(CloneKind::Ssh);
    let f = Forge::named(&c, &s("codeberg")).unwrap();
    assert_eq!((f.name, f.info.url), (s("codeberg"), s("codeberg.org")));
    assert!(Forge::named(&c, &s("gitlab")).is_none());
}

#[test]
fn plan_places_clone_under_forge_and_user() {
    let c = config(CloneKind::Ssh);
    let base = path(&["/", "home", "me", "repos"]);
    let p = plan(&c, &get_args(false, false, Some("codeberg"), "tool"), &base).ok().unwrap();
    assert_eq!(p.remote, s("git@codeberg.org:me/tool"));
    assert_eq!(p.target, path(&["/", "home", "me", "repos", "codeberg", "me", "tool"]));
    assert!(p.colocate);
}

#[test]
fn plan_rejects_unknown_forge() {
    let c = config(CloneKind::Ssh);
    match plan(&c, &get_args(false, false, Some("gitlab"), "tool"), &path(&["/"])) {
        Err(GetError::UnknownForge(f)) => assert_eq!(f, s("gitlab")),
        Ok(_) => panic!("planned a clone from an unknown forge"),
    }
}

#[test]
fn base_under_home_or_absolute() {
    let mut c = config(CloneKind::Ssh);
    let home = path(&["/", "home", "me"]);
    assert_eq!(c.base_from(Some(home.clone())).ok(), Some(path(&["/", "home", "me", "repos"])));
    c.base = s("/srv/code");
    assert_eq!(c.base_from(Some(home)).ok(), Some(path(&["/", "srv", "code"])));
    assert!(matches!(c.base_from(None), Err(ConfigError::NoHome)));
}

#[test]
fn push_path_splits_components() {
    assert_eq!(push_path(&path(&["/", "b"]), &s("me/tool")), path(&["/", "b", "me", "tool"]));
    assert_eq!(push_path(&path(&["/", "b"]), &s("me//./tool/")), path(&["/", "b", "me", "tool"]));
    assert_eq!(push_path(&path(&["/", "b"]), &s("./me")), path(&["/", "b", ".", "me"]));
}

#[test]
fn target_splits_at_last_slash() {
    match Target::parse(&s("gh/me/tool")) {
        Target::NameAndRepo(n, r) => assert_eq!((n, r), (s("gh/me"), s("tool"))),
        Target::Name(_) => panic!("expected a split"),
    }
    assert!(matches!(Target::parse(&s("tool")), Target::Name(n) if n == "tool"));
}

#[test]
fn name_matches_repo_or_component_above() {
    let r = path(&["gh", "me", "tool"]);
    assert_eq!(jj_manage::resolve::matches(&Target::Name(s("tool")), &r), Some(true));
    assert_eq!(jj_manage::resolve::matches(&Target::Name(s("me")), &r), Some(true));
    assert_eq!(jj_manage::resolve::matches(&Target::Name(s("you")), &r), Some(false));
    assert_eq!(jj_manage::resolve::matches(&Target::Name(s("x")), &vec![]), None);
}

#[test]
fn name_and_repo_matches_prefix_or_component() {
    let r = path(&["gh", "me", "tool"]);
    assert_eq!(jj_manage::resolve::matches(&Target::NameAndRepo(s("me"), s("tool")), &r), Some(true));
    assert_eq!(jj_manage::resolve::matches(&Target::NameAndRepo(s("gh/me"), s("tool")), &r), Some(true));
    assert_eq!(jj_manage::resolve::matches(&Target::NameAndRepo(s("gh/you"), s("tool")), &r), Some(false));
    assert_eq!(jj_manage::resolve::matches(&Target::NameAndRepo(s("me"), s("other")), &r), Some(false));
}

#[test]
fn resolve_outcomes() {
    let base = path(&["/", "b"]);
    let repos = vec![path(&["/", "b", "gh", "me", "tool"]), path(&["/", "b", "gh", "you", "tool"])];
    assert_eq!(resolve(&Target::Name(s("me")), &base, &repos, false).ok(), Some(path(&["gh", "me", "tool"])));
    assert_eq!(resolve(&Target::Name(s("me")), &base, &repos, true).ok(), Some(repos[0].clone()));
    assert!(matches!(resolve(&Target::Name(s("none")), &base, &repos, false), Err(ResolveError::NoMatch)));
    match resolve(&Target::Name(s("tool")), &base, &repos, false) {
        Err(ResolveError::Multiple(m)) => assert_eq!(m, vec![path(&["gh", "me", "tool"]), path(&["gh", "you", "tool"])]),
        _ => panic!("expected several matches"),
    }
}

#[test]
fn list_paths_short_or_long() {
    let base = path(&["/", "b"]);
    let p = path(&["/", "b", "gh", "me", "tool"]);
    assert_eq!(display_path(&base, &p, false), path(&["gh", "me", "tool"]));
    assert_eq!(display_path(&base, &p, true), p);
    let outside = path(&["/", "x", "y"]);
    assert_eq!(display_path(&base, &outside, false), outside);
}
