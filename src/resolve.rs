//! Resolving a short name to the one managed repository it denotes.
//!
//! A name without `/` denotes a repository or a user; `a/b` denotes the
//! repository `b` of `a`, where `a` is a user or a whole `forge/user`.
use vstd::prelude::*;

use crate::repos::starts_with;
use crate::text::{join_sep, push_joined};
use crate::update::views;

verus! {

/// What a name given on the command line asks for.
pub enum Target {
    /// A repository name, or a path component above it.
    Name(String),
    /// The part before the last `/`, and the repository name after it.
    NameAndRepo(String, String),
}

/// The index of the last `/` in `s`, or -1 when there is none.
pub open spec fn last_slash(s: Seq<char>) -> int
    decreases s.len(),
{
    if s.len() == 0 {
        -1
    } else if s.last() == '/' {
        s.len() - 1
    } else {
        last_slash(s.drop_last())
    }
}

impl Target {
    /// What `s` asks for: split at its last `/`, if it has one.
    pub fn parse(s: &String) -> (r: Target)
        ensures
            last_slash(s@) < 0 ==> r == Target::Name(r->Name_0) && r->Name_0@ == s@,
            last_slash(s@) >= 0 ==> r is NameAndRepo && r->NameAndRepo_0@ == s@.subrange(
                0,
                last_slash(s@),
            ) && r->NameAndRepo_1@ == s@.subrange(last_slash(s@) + 1, s@.len() as int),
    {
        let text = s.as_str();
        let n = text.unicode_len();
        let mut k: usize = n;
        assert(s@.subrange(0, n as int) =~= s@);
        while k > 0 && text.get_char(k - 1) != '/'
            invariant
                k <= n == s@.len(),
                text@ == s@,
                last_slash(s@.subrange(0, k as int)) == last_slash(s@),
            decreases k,
        {
            assert(s@.subrange(0, k as int).drop_last() =~= s@.subrange(0, k - 1));
            k = k - 1;
        }
        if k == 0 {
            Target::Name(s.clone())
        } else {
            assert(last_slash(s@.subrange(0, k as int)) == k - 1);
            let before = text.substring_char(0, k - 1).to_owned();
            let after = text.substring_char(k, n).to_owned();
            Target::NameAndRepo(before, after)
        }
    }
}

/// Whether `target` denotes the repository at relative path `path` (as
/// components); `None` for an empty path.
pub open spec fn denotes(target: Target, path: Seq<Seq<char>>) -> Option<bool> {
    if path.len() == 0 {
        None
    } else {
        let above = path.drop_last();
        Some(
            match target {
                Target::Name(n) => n@ == path.last() || above.contains(n@),
                Target::NameAndRepo(n, r) => r@ == path.last() && (n@ == join_sep(above, "/"@)
                    || above.contains(n@)),
            },
        )
    }
}

/// Whether one of `v` other than the last is `name`.
fn contains_above(v: &Vec<String>, name: &String) -> (r: bool)
    requires
        v@.len() > 0,
    ensures
        r == views(v@).drop_last().contains(name@),
{
    let mut i: usize = 0;
    while i < v.len() - 1
        invariant
            v@.len() > 0,
            i <= v@.len() - 1,
            forall|j: int| 0 <= j < i ==> v@[j]@ != name@,
        decreases v@.len() - 1 - i,
    {
        if v[i] == *name {
            assert(views(v@).drop_last()[i as int] == name@);
            return true;
        }
        i = i + 1;
    }
    assert(!views(v@).drop_last().contains(name@)) by {
        if views(v@).drop_last().contains(name@) {
            let j = choose|j: int|
                0 <= j < views(v@).drop_last().len() && views(v@).drop_last()[j] == name@;
            assert(v@[j]@ == name@);
        }
    }
    false
}

/// Whether `target` denotes the repository at relative path `repo`.
pub fn matches(target: &Target, repo: &Vec<String>) -> (r: Option<bool>)
    ensures
        r == denotes(*target, views(repo@)),
{
    if repo.len() == 0 {
        return None;
    }
    let last = repo.len() - 1;
    match target {
        Target::Name(n) => Some(repo[last] == *n || contains_above(repo, n)),
        Target::NameAndRepo(n, r) => {
            if repo[last] != *r {
                return Some(false);
            }
            let mut above: Vec<String> = Vec::new();
            let mut i: usize = 0;
            while i < last
                invariant
                    last + 1 == repo@.len(),
                    i <= last,
                    views(above@) == views(repo@).subrange(0, i as int),
                decreases last - i,
            {
                let ghost before = above@;
                above.push(repo[i].clone());
                assert(views(above@) =~= views(before).push(repo@[i as int]@));
                assert(views(above@) =~= views(repo@).subrange(0, i + 1));
                i = i + 1;
            }
            assert(views(above@) =~= views(repo@).drop_last());
            let mut joined = String::new();
            push_joined(&mut joined, &above, "/");
            assert(joined@ =~= join_sep(views(repo@).drop_last(), "/"@));
            Some(joined == *n || contains_above(repo, n))
        },
    }
}

/// Why a name did not resolve.
pub enum ResolveError {
    /// No repository matched.
    NoMatch,
    /// Several repositories matched: their paths.
    Multiple(Vec<Vec<String>>),
}

/// `path` without the leading `base`, when it starts with it.
pub open spec fn relative(path: Seq<Seq<char>>, base: Seq<Seq<char>>) -> Option<Seq<Seq<char>>> {
    if starts_with(path, base) {
        Some(path.subrange(base.len() as int, path.len() as int))
    } else {
        None
    }
}

/// The paths that `target` denotes among `repos`, in order: relative to
/// `base`, or whole when `long`.
pub open spec fn candidates(
    target: Target,
    base: Seq<Seq<char>>,
    repos: Seq<Seq<Seq<char>>>,
    long: bool,
) -> Seq<Seq<Seq<char>>>
    decreases repos.len(),
{
    if repos.len() == 0 {
        Seq::empty()
    } else {
        let rest = candidates(target, base, repos.drop_last(), long);
        let p = repos.last();
        match relative(p, base) {
            Some(short) => if denotes(target, short) == Some(true) {
                rest.push(if long { p } else { short })
            } else {
                rest
            },
            None => rest,
        }
    }
}

/// The components of each path.
pub open spec fn paths_view(v: Seq<Vec<String>>) -> Seq<Seq<Seq<char>>> {
    v.map_values(|p: Vec<String>| views(p@))
}

/// `path` without the leading `base`, when it starts with it.
pub fn strip_base(path: &Vec<String>, base: &Vec<String>) -> (r: Option<Vec<String>>)
    ensures
        r is Some <==> relative(views(path@), views(base@)) is Some,
        r is Some ==> Some(views(r->0@)) == relative(views(path@), views(base@)),
{
    if path.len() < base.len() {
        return None;
    }
    let mut i: usize = 0;
    while i < base.len()
        invariant
            i <= base@.len() <= path@.len(),
            forall|j: int| 0 <= j < i ==> path@[j]@ == base@[j]@,
        decreases base@.len() - i,
    {
        if path[i] != base[i] {
            assert(views(path@).subrange(0, base@.len() as int)[i as int] != views(base@)[i as int]);
            return None;
        }
        i = i + 1;
    }
    assert(views(path@).subrange(0, base@.len() as int) =~= views(base@));
    let mut rest: Vec<String> = Vec::new();
    let mut k: usize = base.len();
    while k < path.len()
        invariant
            base@.len() <= k <= path@.len(),
            views(rest@) == views(path@).subrange(base@.len() as int, k as int),
        decreases path@.len() - k,
    {
        let ghost before = rest@;
        rest.push(path[k].clone());
        assert(views(rest@) =~= views(before).push(path@[k as int]@));
        assert(views(rest@) =~= views(path@).subrange(base@.len() as int, k + 1));
        k = k + 1;
    }
    Some(rest)
}

/// The one repository among `repos` that `target` denotes: its path
/// relative to `base`, or whole when `long`. An error when none or several
/// match.
pub fn resolve(target: &Target, base: &Vec<String>, repos: &Vec<Vec<String>>, long: bool) -> (r:
    Result<Vec<String>, ResolveError>)
    ensures
        ({
            let c = candidates(*target, views(base@), paths_view(repos@), long);
            &&& (c.len() == 0 <==> (r is Err && r->Err_0 is NoMatch))
            &&& (c.len() == 1 <==> r is Ok)
            &&& (c.len() == 1 ==> views(r->Ok_0@) == c[0])
            &&& (c.len() > 1 <==> (r is Err && r->Err_0 is Multiple))
            &&& (r is Err && r->Err_0 is Multiple ==> paths_view(r->Err_0->Multiple_0@) == c)
        }),
{
    let mut found: Vec<Vec<String>> = Vec::new();
    let mut i: usize = 0;
    while i < repos.len()
        invariant
            i <= repos@.len(),
            paths_view(found@) == candidates(
                *target,
                views(base@),
                paths_view(repos@).subrange(0, i as int),
                long,
            ),
        decreases repos@.len() - i,
    {
        let ghost ps = paths_view(repos@).subrange(0, i + 1);
        assert(ps.drop_last() =~= paths_view(repos@).subrange(0, i as int));
        assert(ps.last() == views(repos@[i as int]@));
        let ghost before = found@;
        if let Some(short) = strip_base(&repos[i], base) {
            if matches(target, &short) == Some(true) {
                let p = if long {
                    repos[i].clone()
                } else {
                    short
                };
                assert(views(p@) =~= (if long { views(repos@[i as int]@) } else { views(short@) }));
                found.push(p);
                assert(paths_view(found@) =~= paths_view(before).push(views(p@)));
            }
        }
        i = i + 1;
    }
    assert(paths_view(repos@).subrange(0, repos@.len() as int) =~= paths_view(repos@));
    if found.len() == 0 {
        Err(ResolveError::NoMatch)
    } else if found.len() == 1 {
        let p = found.pop().unwrap();
        assert(views(p@) == paths_view(found@.push(p))[0]);
        Ok(p)
    } else {
        Err(ResolveError::Multiple(found))
    }
}

} // verus!
