//! Managed repositories under a base directory, and the walk that finds
//! them.
//!
//! Paths are held as their components: `["/", "home", "me", "repos"]`.
//! A directory holding a `.jj` directory is a managed repository.
use vstd::prelude::*;

use crate::update::views;

verus! {

#[verifier::external_type_specification]
#[verifier::external_body]
pub struct ExWalkIter(walkdir::IntoIter);

#[verifier::external_type_specification]
#[verifier::external_body]
pub struct ExWalkEntry(walkdir::DirEntry);

#[verifier::external_type_specification]
#[verifier::external_body]
pub struct ExWalkError(walkdir::Error);

/// One entry that the walk reports.
pub struct WalkEntry {
    /// The entry is a directory (a symbolic link is not followed).
    pub is_dir: bool,
    /// Its file name.
    pub name: String,
    /// Its path, as components.
    pub path: Vec<String>,
    /// Its depth below the root of the walk, which has depth 0.
    pub depth: usize,
}

/// Relies on `walkdir::WalkDir::new(..).into_iter()`: a walk of the tree at
/// `base`, which has not touched the disk yet.
#[verifier::external_body]
fn walk_new(base: &Vec<String>) -> (r: walkdir::IntoIter) {
    walkdir::WalkDir::new(base.iter().collect::<std::path::PathBuf>()).into_iter()
}

/// Relies on `<walkdir::IntoIter as Iterator>::next`: the next entry of the
/// walk (`None` once it is over), or `Some(None)` for one that could not
/// be read. What it returns depends on the disk.
#[verifier::external_body]
fn walk_next(it: &mut walkdir::IntoIter) -> (r: Option<Option<WalkEntry>>) {
    match it.next() {
        None => None,
        Some(Err(_)) => Some(None),
        Some(Ok(e)) => Some(
            Some(
                WalkEntry {
                    is_dir: e.file_type().is_dir(),
                    name: e.file_name().to_string_lossy().into_owned(),
                    path: e.path().iter().map(|c| c.to_string_lossy().into_owned()).collect(),
                    depth: e.depth(),
                },
            ),
        ),
    }
}

/// Relies on `walkdir::IntoIter::skip_current_dir`: the walk does not
/// descend into the directory that it reported last.
#[verifier::external_body]
fn walk_skip(it: &mut walkdir::IntoIter) {
    it.skip_current_dir()
}

/// Relies on `Path::is_dir`: whether a directory is at `path` now. It
/// depends on the disk.
#[verifier::external_body]
fn is_dir_at(path: &Vec<String>) -> (r: bool) {
    path.iter().collect::<std::path::PathBuf>().is_dir()
}

/// The name of the directory that marks a managed repository.
pub open spec fn marker() -> Seq<char> {
    ".jj"@
}

/// What the walk does with an entry.
pub enum Visit {
    /// Not a directory: nothing.
    Ignore,
    /// A hidden directory below the root: neither reported nor entered.
    Prune,
    /// A directory that is a repository when it holds a marker directory.
    Check,
}

impl WalkEntry {
    /// A directory whose name starts with `.`, other than the root.
    pub open spec fn is_hidden(&self) -> bool {
        self.depth > 0 && self.name@.len() > 0 && self.name@[0] == '.'
    }
}

/// What the walk does with `entry`.
pub fn visit(entry: &WalkEntry) -> (v: Visit)
    ensures
        !entry.is_dir ==> v is Ignore,
        entry.is_dir && entry.is_hidden() ==> v is Prune,
        entry.is_dir && !entry.is_hidden() ==> v is Check,
{
    if !entry.is_dir {
        return Visit::Ignore;
    }
    let name = entry.name.as_str();
    if entry.depth > 0 && name.unicode_len() > 0 && name.get_char(0) == '.' {
        Visit::Prune
    } else {
        Visit::Check
    }
}

/// The path of the marker directory inside the directory at `path`.
pub fn marker_path(path: &Vec<String>) -> (r: Vec<String>)
    ensures
        views(r@) == views(path@).push(marker()),
{
    let mut r = path.clone();
    let ghost before = r@;
    r.push(String::from_str(".jj"));
    assert(views(r@) =~= views(before).push(marker()));
    assert(views(before) =~= views(path@));
    r
}

/// The components of each part of a step's outcome.
pub open spec fn report_view(r: Option<Option<Vec<String>>>) -> Option<Option<Seq<Seq<char>>>> {
    match r {
        None => None,
        Some(None) => Some(None),
        Some(Some(p)) => Some(Some(views(p@))),
    }
}

/// What one step of the walk reports, given what the walk returned and
/// whether the entry's marker directory was found: `None` when the walk is
/// over; the entry's path when it is a visible directory holding a marker;
/// else `Some(None)`.
pub open spec fn step_report(entry: Option<Option<WalkEntry>>, has_marker: bool) -> Option<
    Option<Seq<Seq<char>>>,
> {
    match entry {
        None => None,
        Some(None) => Some(None),
        Some(Some(e)) => if e.is_dir && !e.is_hidden() && has_marker {
            Some(Some(views(e.path@)))
        } else {
            Some(None)
        },
    }
}

/// Whether one step tells the walk not to enter the entry: a hidden
/// directory, or a directory holding a marker.
pub open spec fn step_skips(entry: Option<Option<WalkEntry>>, has_marker: bool) -> bool {
    match entry {
        Some(Some(e)) => e.is_dir && (e.is_hidden() || has_marker),
        _ => false,
    }
}

/// The decision of one step of the walk: what it reports, and whether the
/// walk must skip the entry's subtree.
pub fn step_of(entry: Option<Option<WalkEntry>>, has_marker: bool) -> (r: (
    Option<Option<Vec<String>>>,
    bool,
))
    ensures
        report_view(r.0) == step_report(entry, has_marker),
        r.1 == step_skips(entry, has_marker),
{
    match entry {
        None => (None, false),
        Some(None) => (Some(None), false),
        Some(Some(e)) => match visit(&e) {
            Visit::Ignore => (Some(None), false),
            Visit::Prune => (Some(None), true),
            Visit::Check => if has_marker {
                (Some(Some(e.path)), true)
            } else {
                (Some(None), false)
            },
        },
    }
}

/// A walk over a base directory that reports the managed repositories in
/// it: each directory that holds a marker directory. The walk enters no
/// repository and no hidden directory, so that no repository is reported
/// inside another.
pub struct RepoIter {
    it: walkdir::IntoIter,
    root: Ghost<Seq<Seq<char>>>,
    pruned: Ghost<Seq<Seq<Seq<char>>>>,
}

impl RepoIter {
    /// The directory that the walk covers.
    pub closed spec fn root(&self) -> Seq<Seq<char>> {
        self.root@
    }

    /// The directories that the walk was told not to enter, in order.
    pub closed spec fn pruned(&self) -> Seq<Seq<Seq<char>>> {
        self.pruned@
    }

    /// A walk of the tree at `base`.
    pub fn new(base: &Vec<String>) -> (r: RepoIter)
        ensures
            r.root() == views(base@),
            r.pruned() == Seq::<Seq<Seq<char>>>::empty(),
    {
        RepoIter { it: walk_new(base), root: Ghost(views(base@)), pruned: Ghost(Seq::empty()) }
    }

    /// One step of the walk. `None`: the walk is over. `Some(None)`: the
    /// entry is not a repository, or could not be read. `Some(Some(p))`: the
    /// directory `p` is a repository, and the walk does not enter it. The
    /// marker is looked for only in visible directories; whatever the walk
    /// and the disk gave, the step is the one `step_of` decides.
    pub fn next_step(&mut self) -> (r: Option<Option<Vec<String>>>)
        ensures
            final(self).root() == old(self).root(),
            exists|entry: Option<Option<WalkEntry>>, has_marker: bool|
                #[trigger] step_report(entry, has_marker) == report_view(r) && final(self).pruned()
                    == if step_skips(entry, has_marker) {
                    old(self).pruned().push(views(entry->Some_0->Some_0.path@))
                } else {
                    old(self).pruned()
                },
    {
        let entry = walk_next(&mut self.it);
        let has_marker = match &entry {
            Some(Some(e)) => match visit(e) {
                Visit::Check => is_dir_at(&marker_path(&e.path)),
                _ => false,
            },
            _ => false,
        };
        let ghost seen = entry;
        let (r, skip) = step_of(entry, has_marker);
        if skip {
            walk_skip(&mut self.it);
            proof {
                self.pruned@ = self.pruned@.push(views(seen->Some_0->Some_0.path@));
            }
        }
        assert(step_report(seen, has_marker) == report_view(r));
        r
    }
}

/// `base` is where `full` starts.
pub open spec fn starts_with(full: Seq<Seq<char>>, base: Seq<Seq<char>>) -> bool {
    base.len() <= full.len() && full.subrange(0, base.len() as int) == base
}

/// A managed repository, named by the path segments under the base
/// directory: `<base>/<forge>/<user>/.../<repo>`.
pub struct Repo {
    pub forge: String,
    pub user: String,
    pub repo: String,
}

impl Repo {
    /// The repository at `full_path`: its first two components under `base`
    /// are the forge and the user, its last the repository's name. `None`
    /// when `full_path` is not under `base`, or lies fewer than three levels
    /// below it.
    pub fn from_path(base: &Vec<String>, full_path: &Vec<String>) -> (r: Option<Repo>)
        ensures
            r is Some <==> starts_with(views(full_path@), views(base@)) && full_path@.len()
                >= base@.len() + 3,
            r is Some ==> r->0.forge@ == full_path@[base@.len() as int]@ && r->0.user@
                == full_path@[base@.len() + 1int]@ && r->0.repo@ == full_path@.last()@,
    {
        if full_path.len() < base.len() || full_path.len() - base.len() < 3 {
            return None;
        }
        let mut i: usize = 0;
        while i < base.len()
            invariant
                i <= base@.len() <= full_path@.len(),
                forall|j: int| 0 <= j < i ==> full_path@[j]@ == base@[j]@,
            decreases base@.len() - i,
        {
            if full_path[i] != base[i] {
                assert(views(full_path@).subrange(0, base@.len() as int)[i as int] != views(
                    base@,
                )[i as int]);
                return None;
            }
            i = i + 1;
        }
        assert(views(full_path@).subrange(0, base@.len() as int) =~= views(base@));
        let b = base.len();
        Some(
            Repo {
                forge: full_path[b].clone(),
                user: full_path[b + 1].clone(),
                repo: full_path[full_path.len() - 1].clone(),
            },
        )
    }
}

} // verus!
