//! The settings that the commands read, and where the managed tree lies.
use vstd::prelude::*;

use crate::forge::NamedForge;
use crate::get::GetConfig;
use crate::update::views;

verus! {

/// The settings.
pub struct Config {
    /// The base directory of the managed tree, relative to the home
    /// directory (or absolute).
    pub base: String,
    /// The user that a repository name without `/` belongs to.
    pub user: String,
    /// The forge used when none is named.
    pub default_forge: String,
    /// The configured forges.
    pub forges: Vec<NamedForge>,
    /// Whether clones are colocated with a git working copy.
    pub colocate: bool,
    pub get: GetConfig,
}

/// Why the base directory could not be found.
pub enum ConfigError {
    /// The home directory could not be determined.
    NoHome,
}

/// The pieces of `s` between its `/` separators, in order, empty ones
/// included.
pub open spec fn split_at_slash(s: Seq<char>) -> Seq<Seq<char>>
    decreases s.len(),
{
    if s.len() == 0 {
        seq![Seq::<char>::empty()]
    } else {
        let p = split_at_slash(s.drop_last());
        if s.last() == '/' {
            p.push(Seq::<char>::empty())
        } else {
            p.update(p.len() - 1, p.last().push(s.last()))
        }
    }
}

/// A piece that names a component: not empty, and not `.`.
pub open spec fn names_component(p: Seq<char>) -> bool {
    p.len() > 0 && p != "."@
}

/// The components of the path written as `s` on Unix: the root as `/` when
/// `s` starts with `/`, a leading `.` piece as `.`, then every other piece
/// between separators except empty ones and `.`.
pub open spec fn components_of(s: Seq<char>) -> Seq<Seq<char>> {
    let ps = split_at_slash(s);
    if s.len() > 0 && s[0] == '/' {
        seq!["/"@] + ps.filter(|p: Seq<char>| names_component(p))
    } else if ps[0] == "."@ {
        seq!["."@] + ps.drop_first().filter(|p: Seq<char>| names_component(p))
    } else {
        ps.filter(|p: Seq<char>| names_component(p))
    }
}

/// Relies on `Path::iter` on Unix: the components of the path `s`, with
/// repeated separators and non-leading `.` dropped.
#[verifier::external_body]
fn path_components(s: &String) -> (r: Vec<String>)
    ensures
        views(r@) == components_of(s@),
{
    std::path::Path::new(s).iter().map(|c| c.to_string_lossy().into_owned()).collect()
}

/// Relies on `home::home_dir`: the user's home directory, as components,
/// when it can be found. It depends on the environment.
#[verifier::external_body]
fn home_dir() -> (r: Option<Vec<String>>) {
    home::home_dir().map(|p| p.iter().map(|c| c.to_string_lossy().into_owned()).collect())
}

/// `path` extended by `rel` (as components), as `PathBuf::push` does: an
/// absolute `rel` replaces `path`.
pub open spec fn pushed(path: Seq<Seq<char>>, rel: Seq<Seq<char>>) -> Seq<Seq<char>> {
    if rel.len() > 0 && rel[0] == "/"@ {
        rel
    } else {
        path + rel
    }
}

/// `path` extended by the path written as `rel`.
pub fn push_path(path: &Vec<String>, rel: &String) -> (r: Vec<String>)
    ensures
        views(r@) == pushed(views(path@), components_of(rel@)),
{
    let parts = path_components(rel);
    let root = String::from_str("/");
    if parts.len() > 0 && parts[0] == root {
        return parts;
    }
    let mut r = path.clone();
    assert(views(r@) =~= views(path@));
    let mut i: usize = 0;
    while i < parts.len()
        invariant
            i <= parts@.len(),
            views(r@) == views(path@) + views(parts@).subrange(0, i as int),
        decreases parts@.len() - i,
    {
        let ghost before = r@;
        r.push(parts[i].clone());
        assert(views(r@) =~= views(before).push(parts@[i as int]@));
        assert(views(r@) =~= views(path@) + views(parts@).subrange(0, i + 1));
        i = i + 1;
    }
    assert(views(parts@).subrange(0, i as int) =~= views(parts@));
    r
}

impl Config {
    /// The base directory, under the home directory `home`.
    pub fn base_from(&self, home: Option<Vec<String>>) -> (r: Result<Vec<String>, ConfigError>)
        ensures
            home is None <==> r is Err,
            home is Some ==> r is Ok && views(r->Ok_0@) == pushed(
                views(home->0@),
                components_of(self.base@),
            ),
    {
        match home {
            None => Err(ConfigError::NoHome),
            Some(h) => Ok(push_path(&h, &self.base)),
        }
    }

    /// The base directory, under the user's home directory; an error when
    /// that cannot be found.
    pub fn base(&self) -> (r: Result<Vec<String>, ConfigError>)
        ensures
            r is Ok ==> exists|h: Vec<String>|
                views(r->Ok_0@) == pushed(views(h@), components_of(self.base@)),
    {
        let home = home_dir();
        self.base_from(home)
    }
}

} // verus!
