//! Cloning one repository into the managed tree.
use vstd::prelude::*;

use crate::config::{components_of, pushed, push_path, Config};
use crate::forge::Forge;
use crate::update::views;

verus! {

/// How repositories are cloned when the command line does not say.
pub enum CloneKind {
    Ssh,
    Https,
}

impl Default for CloneKind {
    fn default() -> (r: CloneKind)
        ensures
            r is Ssh,
    {
        CloneKind::Ssh
    }
}

/// The settings of cloning.
pub struct GetConfig {
    pub clone_kind: CloneKind,
}

impl Default for GetConfig {
    fn default() -> (r: GetConfig)
        ensures
            r.clone_kind is Ssh,
    {
        GetConfig { clone_kind: CloneKind::Ssh }
    }
}

/// What to clone, and how.
pub struct Args {
    /// Clone over https, whatever the settings say.
    pub https: bool,
    /// Clone over ssh, whatever the settings say.
    pub ssh: bool,
    /// The forge to clone from, instead of the default one.
    pub forge: Option<String>,
    /// `user/repo`, or a repository of the configured user.
    pub repo: String,
}

/// `s` holds a `/`.
pub open spec fn has_slash(s: Seq<char>) -> bool {
    exists|i: int| 0 <= i < s.len() && s[i] == '/'
}

/// The repository path `user/repo` that `path` names: itself when it holds
/// a `/`, else a repository of `user`.
pub open spec fn repo_path(user: Seq<char>, path: Seq<char>) -> Seq<char> {
    if has_slash(path) {
        path
    } else {
        user + "/"@ + path
    }
}

/// The repository path that `path` names, for `config`'s user.
pub fn get_repo(config: &Config, path: &String) -> (r: String)
    ensures
        r@ == repo_path(config.user@, path@),
{
    let text = path.as_str();
    let n = text.unicode_len();
    let mut i: usize = 0;
    while i < n
        invariant
            i <= n == path@.len(),
            text@ == path@,
            forall|j: int| 0 <= j < i ==> path@[j] != '/',
        decreases n - i,
    {
        if text.get_char(i) == '/' {
            return path.clone();
        }
        i = i + 1;
    }
    let mut r = config.user.clone();
    r.append("/");
    r.append(text);
    r
}

/// Whether the clone goes over https: as the command line says, else as the
/// settings say.
pub open spec fn uses_https(https: bool, ssh: bool, kind: CloneKind) -> bool {
    if https {
        true
    } else if ssh {
        false
    } else {
        kind is Https
    }
}

/// The remote of repository `path` on the forge at `url`.
pub open spec fn remote_of(https: bool, url: Seq<char>, path: Seq<char>) -> Seq<char> {
    if https {
        url + "/"@ + path
    } else {
        "git@"@ + url + ":"@ + path
    }
}

/// The remote to clone repository `path` from, on the forge at `url`.
pub fn get_remote(config: &Config, args: &Args, url: &String, path: &String) -> (r: String)
    ensures
        r@ == remote_of(
            uses_https(args.https, args.ssh, config.get.clone_kind),
            url@,
            path@,
        ),
{
    let https = if args.https {
        true
    } else if args.ssh {
        false
    } else {
        match config.get.clone_kind {
            CloneKind::Https => true,
            CloneKind::Ssh => false,
        }
    };
    if https {
        let mut r = url.clone();
        r.append("/");
        r.append(path.as_str());
        r
    } else {
        let mut r = String::from_str("git@");
        r.append(url.as_str());
        r.append(":");
        r.append(path.as_str());
        r
    }
}

/// A clone to make.
pub struct ClonePlan {
    /// Where to clone from.
    pub remote: String,
    /// The directory to clone into.
    pub target: Vec<String>,
    /// Whether to colocate a git working copy.
    pub colocate: bool,
}

/// Why a clone cannot be planned.
pub enum GetError {
    /// No forge is configured under this name.
    UnknownForge(String),
}

/// The forge name that `args` asks for.
pub open spec fn forge_name(config: Config, args: Args) -> Seq<char> {
    match args.forge {
        Some(f) => f@,
        None => config.default_forge@,
    }
}

/// The clone that `args` asks for, into the managed tree at `base`:
/// `<base>/<forge>/<user>/<repo>`. An error when the forge is unknown.
pub fn plan(config: &Config, args: &Args, base: &Vec<String>) -> (r: Result<ClonePlan, GetError>)
    ensures
        (forall|i: int|
            0 <= i < config.forges@.len() ==> #[trigger] config.forges@[i].name@ != forge_name(
                *config,
                *args,
            )) <==> r is Err,
        r is Err ==> r->Err_0->UnknownForge_0@ == forge_name(*config, *args),
        r is Ok ==> ({
            let p = r->Ok_0;
            let path = repo_path(config.user@, args.repo@);
            &&& p.colocate == config.colocate
            &&& views(p.target@) == pushed(
                pushed(views(base@), components_of(forge_name(*config, *args))),
                components_of(path),
            )
            &&& exists|i: int|
                0 <= i < config.forges@.len() && #[trigger] config.forges@[i].name@ == forge_name(
                    *config,
                    *args,
                ) && p.remote@ == remote_of(
                    uses_https(args.https, args.ssh, config.get.clone_kind),
                    config.forges@[i].info.url@,
                    path,
                )
        }),
{
    let name = match &args.forge {
        Some(f) => f.clone(),
        None => config.default_forge.clone(),
    };
    match Forge::named(config, &name) {
        None => Err(GetError::UnknownForge(name)),
        Some(forge) => {
            let repo = get_repo(config, &args.repo);
            let remote = get_remote(config, args, &forge.info.url, &repo);
            let in_forge = push_path(base, &forge.name);
            let target = push_path(&in_forge, &repo);
            Ok(ClonePlan { remote, target, colocate: config.colocate })
        },
    }
}

} // verus!
