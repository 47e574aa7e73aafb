//! Refreshing every selected repository concurrently: selection, job
//! bookkeeping and the shared state of the progress display.
use vstd::prelude::*;

use crate::repos::{starts_with, Repo};
use crate::text::{join_sep, push_joined};

verus! {

/// Filters for a refresh. Values within one filter are alternatives; the
/// three filters must all accept a repository. An empty filter accepts all.
pub struct Args {
    pub forge: Vec<String>,
    pub user: Vec<String>,
    pub repo: Vec<String>,
}

/// `vals` is empty, or one of its entries is `v`.
pub open spec fn accepts(vals: Seq<String>, v: Seq<char>) -> bool {
    vals.len() == 0 || exists|i: int| 0 <= i < vals.len() && #[trigger] vals[i]@ == v
}

/// Whether the filters select the repository named `forge/user/repo`.
pub open spec fn selects(args: Args, forge: Seq<char>, user: Seq<char>, repo: Seq<char>) -> bool {
    &&& accepts(args.forge@, forge)
    &&& accepts(args.user@, user)
    &&& accepts(args.repo@, repo)
}

proof fn lemma_accepts_set(vals: Seq<String>, v: Seq<char>)
    ensures
        accepts(vals, v) == (views(vals).to_set().is_empty() || views(vals).to_set().contains(v)),
{
    if vals.len() > 0 {
        assert(views(vals).to_set().contains(views(vals)[0]));
    }
    if views(vals).to_set().contains(v) {
        let i = choose|i: int| 0 <= i < views(vals).len() && views(vals)[i] == v;
        assert(vals[i]@ == v);
    }
    if vals.len() > 0 && exists|i: int| 0 <= i < vals.len() && #[trigger] vals[i]@ == v {
        let i = choose|i: int| 0 <= i < vals.len() && #[trigger] vals[i]@ == v;
        assert(views(vals)[i] == v);
    }
}

/// A repository is selected exactly when, for each of forge, user and
/// name, the set of accepted values is empty or holds the repository's.
pub proof fn lemma_selects_by_sets(args: Args, forge: Seq<char>, user: Seq<char>, repo: Seq<char>)
    ensures
        selects(args, forge, user, repo) == ((views(args.forge@).to_set().is_empty() || views(
            args.forge@,
        ).to_set().contains(forge)) && (views(args.user@).to_set().is_empty() || views(
            args.user@,
        ).to_set().contains(user)) && (views(args.repo@).to_set().is_empty() || views(
            args.repo@,
        ).to_set().contains(repo))),
{
    lemma_accepts_set(args.forge@, forge);
    lemma_accepts_set(args.user@, user);
    lemma_accepts_set(args.repo@, repo);
}

/// Whether `vals` is empty or holds `v`.
pub fn contains_or_empty(vals: &Vec<String>, v: &String) -> (r: bool)
    ensures
        r == accepts(vals@, v@),
{
    if vals.len() == 0 {
        return true;
    }
    let mut i: usize = 0;
    while i < vals.len()
        invariant
            i <= vals@.len(),
            forall|j: int| 0 <= j < i ==> vals@[j]@ != v@,
        decreases vals@.len() - i,
    {
        if vals[i] == *v {
            return true;
        }
        i = i + 1;
    }
    false
}

/// Whether the filters select `r`: each of its forge, user and name is
/// accepted by the corresponding filter.
pub fn matches(args: &Args, r: &Repo) -> (b: bool)
    ensures
        b == selects(*args, r.forge@, r.user@, r.repo@),
        b == ((args.forge@.len() == 0 || exists|i: int|
            0 <= i < args.forge@.len() && #[trigger] args.forge@[i]@ == r.forge@) && (
        args.user@.len() == 0 || exists|i: int|
            0 <= i < args.user@.len() && #[trigger] args.user@[i]@ == r.user@) && (
        args.repo@.len() == 0 || exists|i: int|
            0 <= i < args.repo@.len() && #[trigger] args.repo@[i]@ == r.repo@)),
{
    contains_or_empty(&args.forge, &r.forge) && contains_or_empty(&args.user, &r.user)
        && contains_or_empty(&args.repo, &r.repo)
}


/// The display name of a repository: `forge/user/repo`.
pub open spec fn name_of(forge: Seq<char>, user: Seq<char>, repo: Seq<char>) -> Seq<char> {
    forge + "/"@ + user + "/"@ + repo
}

/// The display name of `r`.
pub fn job_name(r: &Repo) -> (s: String)
    ensures
        s@ == name_of(r.forge@, r.user@, r.repo@),
{
    let mut s = r.forge.clone();
    s.append("/");
    s.append(r.user.as_str());
    s.append("/");
    s.append(r.repo.as_str());
    s
}

/// A repository to refresh: its path and its display name.
pub struct Job {
    pub path: Vec<String>,
    pub name: String,
}

/// The display name under which the repository at `path` is refreshed, if
/// the filters select it; `None` when they do not, or when `path` is not a
/// repository path under `base`.
pub open spec fn job_for(base: Seq<Seq<char>>, path: Seq<Seq<char>>, args: Args) -> Option<
    Seq<char>,
> {
    let b = base.len() as int;
    if starts_with(path, base) && path.len() >= b + 3 && selects(
        args,
        path[b],
        path[b + 1],
        path.last(),
    ) {
        Some(name_of(path[b], path[b + 1], path.last()))
    } else {
        None
    }
}

/// The jobs for `paths`, in order: a path and its name for each path that
/// `job_for` names.
pub open spec fn jobs_for(base: Seq<Seq<char>>, paths: Seq<Seq<Seq<char>>>, args: Args) -> Seq<
    (Seq<Seq<char>>, Seq<char>),
>
    decreases paths.len(),
{
    if paths.len() == 0 {
        Seq::empty()
    } else {
        let rest = jobs_for(base, paths.drop_last(), args);
        match job_for(base, paths.last(), args) {
            Some(name) => rest.push((paths.last(), name)),
            None => rest,
        }
    }
}

/// The jobs of a refresh are the selected repositories among the paths:
/// each job is one of the paths, named as `job_for` names it; each path that
/// `job_for` names has its job; and there are no more jobs than paths.
pub proof fn lemma_jobs_for_members(
    base: Seq<Seq<char>>,
    paths: Seq<Seq<Seq<char>>>,
    args: Args,
)
    ensures
        jobs_for(base, paths, args).len() <= paths.len(),
        forall|k: int|
            0 <= k < jobs_for(base, paths, args).len() ==> exists|i: int|
                0 <= i < paths.len() && paths[i] == (#[trigger] jobs_for(base, paths, args)[k]).0
                    && job_for(base, paths[i], args) == Some(jobs_for(base, paths, args)[k].1),
        forall|i: int|
            0 <= i < paths.len() && (#[trigger] job_for(base, paths[i], args)) is Some ==> exists|
                k: int,
            |
                0 <= k < jobs_for(base, paths, args).len() && #[trigger] jobs_for(
                    base,
                    paths,
                    args,
                )[k] == (paths[i], job_for(base, paths[i], args)->0),
    decreases paths.len(),
{
    if paths.len() > 0 {
        let init = paths.drop_last();
        lemma_jobs_for_members(base, init, args);
        let rest = jobs_for(base, init, args);
        let jobs = jobs_for(base, paths, args);
        let n = paths.len() - 1;
        assert forall|k: int| 0 <= k < jobs.len() implies exists|i: int|
            0 <= i < paths.len() && paths[i] == (#[trigger] jobs[k]).0 && job_for(base, paths[i], args)
                == Some(jobs[k].1) by {
            if k < rest.len() {
                assert(jobs[k] == rest[k]);
                let i = choose|i: int|
                    0 <= i < init.len() && init[i] == (#[trigger] rest[k]).0 && job_for(
                        base,
                        init[i],
                        args,
                    ) == Some(rest[k].1);
                assert(paths[i] == init[i]);
            } else {
                assert(paths[n] == jobs[k].0);
            }
        }
        assert forall|i: int|
            0 <= i < paths.len() && (#[trigger] job_for(base, paths[i], args)) is Some implies exists|
                k: int,
            | 0 <= k < jobs.len() && #[trigger] jobs[k] == (paths[i], job_for(base, paths[i], args)->0) by {
            if i < n {
                assert(paths[i] == init[i]);
                assert(job_for(base, init[i], args) is Some);
                let k = choose|k: int|
                    0 <= k < rest.len() && #[trigger] rest[k] == (init[i], job_for(base, init[i], args)->0);
                assert(jobs[k] == rest[k]);
            } else {
                assert(jobs[rest.len() as int] == (paths[n], job_for(base, paths[n], args)->0));
            }
        }
    }
}

/// The components of each path.
pub open spec fn path_views(paths: Seq<Vec<String>>) -> Seq<Seq<Seq<char>>> {
    paths.map_values(|p: Vec<String>| views(p@))
}

/// The path and the name of each job.
pub open spec fn job_views(jobs: Seq<Job>) -> Seq<(Seq<Seq<char>>, Seq<char>)> {
    jobs.map_values(|j: Job| (views(j.path@), j.name@))
}

/// The jobs of a refresh: each of the repository paths found under `base`
/// that the filters select, in order, with its display name.
pub fn select_jobs(base: &Vec<String>, paths: &Vec<Vec<String>>, args: &Args) -> (r: Vec<Job>)
    ensures
        job_views(r@) == jobs_for(views(base@), path_views(paths@), *args),
{
    let mut out: Vec<Job> = Vec::new();
    let mut i: usize = 0;
    while i < paths.len()
        invariant
            i <= paths@.len(),
            job_views(out@) == jobs_for(
                views(base@),
                path_views(paths@).subrange(0, i as int),
                *args,
            ),
        decreases paths@.len() - i,
    {
        let ghost ps = path_views(paths@).subrange(0, i + 1);
        assert(ps.drop_last() =~= path_views(paths@).subrange(0, i as int));
        assert(ps.last() == views(paths@[i as int]@));
        let ghost before = out@;
        match Repo::from_path(base, &paths[i]) {
            Some(repo) => {
                if matches(args, &repo) {
                    let name = job_name(&repo);
                    let path = paths[i].clone();
                    assert(views(path@) == views(paths@[i as int]@)) by {
                        assert(views(path@) =~= views(paths@[i as int]@));
                    }
                    out.push(Job { path, name });
                    assert(job_views(out@) =~= job_views(before).push(
                        (views(paths@[i as int]@), name@),
                    ));
                }
            },
            None => {},
        }
        i = i + 1;
    }
    assert(path_views(paths@).subrange(0, paths@.len() as int) =~= path_views(paths@));
    out
}

/// The arguments of the refresh command that follow `-R <repository>`.
pub fn fetch_args() -> (r: Vec<String>)
    ensures
        views(r@) == seq!["git"@, "fetch"@, "--color=always"@],
{
    let r = vec![String::from_str("git"), String::from_str("fetch"), String::from_str("--color=always")];
    assert(views(r@) =~= seq!["git"@, "fetch"@, "--color=always"@]);
    r
}

/// The text of each name, in order.
pub open spec fn views(v: Seq<String>) -> Seq<Seq<char>> {
    v.map_values(|s: String| s@)
}

/// Whether text `a` comes before text `b`, or equals it, in lexicographic
/// order of characters (the order of `String`'s `Ord`).
pub open spec fn text_le(a: Seq<char>, b: Seq<char>) -> bool
    decreases a.len(),
{
    if a.len() == 0 {
        true
    } else if b.len() == 0 {
        false
    } else if a[0] != b[0] {
        (a[0] as u32) < (b[0] as u32)
    } else {
        text_le(a.drop_first(), b.drop_first())
    }
}

/// Each name comes before every later one.
pub open spec fn sorted(v: Seq<Seq<char>>) -> bool {
    forall|i: int, j: int| 0 <= i < j < v.len() ==> text_le(#[trigger] v[i], #[trigger] v[j])
}

/// No name occurs twice.
pub open spec fn unique(v: Seq<Seq<char>>) -> bool {
    forall|i: int, j: int| 0 <= i < j < v.len() ==> #[trigger] v[i] != #[trigger] v[j]
}

/// Whether one of `v` is `name`.
fn contains_name(v: &Vec<String>, name: &String) -> (r: bool)
    ensures
        r == views(v@).contains(name@),
{
    let mut i: usize = 0;
    while i < v.len()
        invariant
            i <= v@.len(),
            forall|j: int| 0 <= j < i ==> v@[j]@ != name@,
        decreases v@.len() - i,
    {
        if v[i] == *name {
            assert(views(v@)[i as int] == name@);
            return true;
        }
        i = i + 1;
    }
    assert(!views(v@).contains(name@)) by {
        if views(v@).contains(name@) {
            let j = choose|j: int| 0 <= j < views(v@).len() && views(v@)[j] == name@;
            assert(v@[j]@ == name@);
        }
    }
    false
}

/// Appending `all[i]` to names taken in order from `all` before index `i`
/// keeps them sorted and unique, when it is not among them already.
proof fn lemma_extend_sorted(kept: Seq<Seq<char>>, all: Seq<Seq<char>>, i: int)
    requires
        0 <= i < all.len(),
        sorted(all),
        sorted(kept),
        unique(kept),
        !kept.contains(all[i]),
        forall|a: int| 0 <= a < kept.len() ==> text_le(#[trigger] kept[a], all[i]),
    ensures
        sorted(kept.push(all[i])),
        unique(kept.push(all[i])),
{
    let k = kept.push(all[i]);
    assert forall|a: int, c: int| 0 <= a < c < k.len() implies text_le(#[trigger] k[a], #[trigger] k[c]) by {
        if c == kept.len() {
            assert(text_le(kept[a], all[i]));
        }
    }
    assert forall|a: int, c: int| 0 <= a < c < k.len() implies #[trigger] k[a] != #[trigger] k[c] by {
        if c == kept.len() {
            assert(kept[a] == k[a]);
        }
    }
}

/// Relies on `slice::sort` with `String`'s `Ord`: the same names, in
/// lexicographic order.
#[verifier::external_body]
fn sort_names(v: &mut Vec<String>)
    ensures
        final(v)@.len() == old(v)@.len(),
        views(final(v)@).to_set() == views(old(v)@).to_set(),
        sorted(views(final(v)@)),
{
    v.sort()
}

/// The spinner glyph of redraw number `frame`.
pub open spec fn spinner(frame: nat) -> Seq<char> {
    if frame % 4 == 0 {
        "/"@
    } else if frame % 4 == 1 {
        "-"@
    } else if frame % 4 == 2 {
        "\\"@
    } else {
        "|"@
    }
}

/// The progress line of redraw number `frame` while `running` are running:
/// back to the start of the line, the spinner, then the names.
pub open spec fn progress_text(frame: nat, running: Seq<Seq<char>>) -> Seq<char> {
    "\r"@ + spinner(frame) + " updating: "@ + join_sep(running, ", "@)
}

/// State shared by the tasks of a refresh: which jobs still run, and
/// whether the progress line is on screen and must be erased before any job
/// output is printed.
///
/// The running names are a `Vec` kept sorted and without repeats: the
/// proofs follow its contents and its order, which they cannot do for a
/// `BTreeSet` keyed by `String`, whose ordering Verus does not model.
pub struct State {
    should_print_newline: bool,
    running_children: Vec<String>,
}

impl State {
    /// The names of the jobs that still run.
    pub open spec fn running_set(&self) -> Set<Seq<char>> {
        self.running_seq().to_set()
    }

    /// Whether the progress line is on screen.
    pub closed spec fn progress_shown(&self) -> bool {
        self.should_print_newline
    }

    /// The running names in display order.
    pub closed spec fn running_seq(&self) -> Seq<Seq<char>> {
        views(self.running_children@)
    }

    /// The running names are listed sorted, each once.
    pub open spec fn wf(&self) -> bool {
        &&& sorted(self.running_seq())
        &&& unique(self.running_seq())
    }

    /// All `names` running, and no progress line on screen.
    pub fn new(names: &Vec<String>) -> (r: State)
        ensures
            r.wf(),
            r.running_set() == views(names@).to_set(),
            !r.progress_shown(),
    {
        let mut all = names.clone();
        assert(all@ =~= names@);
        sort_names(&mut all);
        let mut kept: Vec<String> = Vec::new();
        let mut i: usize = 0;
        while i < all.len()
            invariant
                i <= all@.len(),
                sorted(views(all@)),
                views(kept@).to_set() == views(all@.subrange(0, i as int)).to_set(),
                forall|a: int|
                    0 <= a < views(kept@).len() ==> exists|b: int|
                        0 <= b < i && #[trigger] views(kept@)[a] == #[trigger] views(all@)[b],
                unique(views(kept@)),
                sorted(views(kept@)),
            decreases all@.len() - i,
        {
            assert(views(all@.subrange(0, i + 1)) =~= views(all@.subrange(0, i as int)).push(
                all@[i as int]@,
            ));
            proof {
                views(all@.subrange(0, i as int)).lemma_push_to_set_commute(all@[i as int]@);
            }
            if !contains_name(&kept, &all[i]) {
                let ghost old_kept = kept@;
                assert forall|a: int| 0 <= a < views(old_kept).len() implies text_le(
                    #[trigger] views(old_kept)[a],
                    views(all@)[i as int],
                ) by {
                    let b = choose|b: int|
                        0 <= b < i && #[trigger] views(kept@)[a] == #[trigger] views(all@)[b];
                    assert(text_le(views(all@)[b], views(all@)[i as int]));
                }
                proof {
                    lemma_extend_sorted(views(old_kept), views(all@), i as int);
                }
                kept.push(all[i].clone());
                assert(views(kept@) =~= views(old_kept).push(all@[i as int]@));
                proof {
                    views(old_kept).lemma_push_to_set_commute(all@[i as int]@);
                    assert forall|a: int| 0 <= a < views(kept@).len() implies exists|b: int|
                        0 <= b < i + 1 && #[trigger] views(kept@)[a] == #[trigger] views(all@)[b] by {
                        if a == old_kept.len() {
                            assert(views(kept@)[a] == views(all@)[i as int]);
                        } else {
                            assert(views(kept@)[a] == views(old_kept)[a]);
                        }
                    }
                }
            } else {
                assert(views(kept@).to_set() =~= views(kept@).to_set().insert(all@[i as int]@));
            }
            i = i + 1;
        }
        assert(all@.subrange(0, all@.len() as int) =~= all@);
        State { should_print_newline: false, running_children: kept }
    }

    /// Before a job prints: whether the progress line is on screen and must
    /// be erased first. Either way it is off screen afterwards.
    pub fn take_newline(&mut self) -> (r: bool)
        ensures
            r == old(self).progress_shown(),
            !final(self).progress_shown(),
            final(self).running_seq() == old(self).running_seq(),
    {
        let r = self.should_print_newline;
        self.should_print_newline = false;
        r
    }

    /// A job has exited: its name leaves the running set.
    pub fn finish(&mut self, name: &String)
        requires
            old(self).wf(),
        ensures
            final(self).wf(),
            final(self).running_set() == old(self).running_set().remove(name@),
            final(self).progress_shown() == old(self).progress_shown(),
    {
        let ghost before = views(self.running_children@);
        let mut kept: Vec<String> = Vec::new();
        let mut i: usize = 0;
        while i < self.running_children.len()
            invariant
                i <= before.len(),
                views(self.running_children@) == before,
                sorted(before),
                unique(before),
                views(kept@).to_set() == views(self.running_children@.subrange(0, i as int)).to_set().remove(name@),
                forall|a: int|
                    0 <= a < views(kept@).len() ==> exists|b: int|
                        0 <= b < i && #[trigger] views(kept@)[a] == #[trigger] before[b],
                unique(views(kept@)),
                sorted(views(kept@)),
            decreases before.len() - i,
        {
            let ghost prefix = views(self.running_children@.subrange(0, i as int));
            assert(views(self.running_children@.subrange(0, i + 1)) =~= prefix.push(before[i as int]));
            proof {
                prefix.lemma_push_to_set_commute(before[i as int]);
            }
            if self.running_children[i] != *name {
                let ghost old_kept = kept@;
                assert forall|a: int| 0 <= a < views(old_kept).len() implies text_le(
                    #[trigger] views(old_kept)[a],
                    before[i as int],
                ) by {
                    let b = choose|b: int|
                        0 <= b < i && #[trigger] views(kept@)[a] == #[trigger] before[b];
                }
                assert(!views(old_kept).contains(before[i as int])) by {
                    if views(old_kept).contains(before[i as int]) {
                        let a = choose|a: int|
                            0 <= a < views(old_kept).len() && views(old_kept)[a] == before[i as int];
                        let b = choose|b: int|
                            0 <= b < i && #[trigger] views(kept@)[a] == #[trigger] before[b];
                    }
                }
                proof {
                    lemma_extend_sorted(views(old_kept), before, i as int);
                }
                kept.push(self.running_children[i].clone());
                assert(views(kept@) =~= views(old_kept).push(before[i as int]));
                proof {
                    views(old_kept).lemma_push_to_set_commute(before[i as int]);
                    assert forall|a: int| 0 <= a < views(kept@).len() implies exists|b: int|
                        0 <= b < i + 1 && #[trigger] views(kept@)[a] == #[trigger] before[b] by {
                        if a == old_kept.len() {
                            assert(views(kept@)[a] == before[i as int]);
                        } else {
                            assert(views(kept@)[a] == views(old_kept)[a]);
                        }
                    }
                }
                assert(views(kept@).to_set() =~= prefix.push(before[i as int]).to_set().remove(name@));
            } else {
                assert(views(kept@).to_set() =~= prefix.push(before[i as int]).to_set().remove(name@));
            }
            i = i + 1;
        }
        assert(self.running_children@.subrange(0, i as int) =~= self.running_children@);
        self.running_children = kept;
    }

    /// Whether no job runs any more.
    pub fn is_done(&self) -> (r: bool)
        ensures
            r == self.running_set().is_empty(),
    {
        proof {
            if self.running_seq().len() > 0 {
                assert(self.running_set().contains(self.running_seq()[0]));
            }
        }
        self.running_children.len() == 0
    }

    /// The names of the running jobs, in display order.
    pub fn running_names(&self) -> (r: Vec<String>)
        ensures
            views(r@) == self.running_seq(),
    {
        let r = self.running_children.clone();
        assert(views(r@) =~= self.running_seq());
        r
    }

    /// One redraw of the progress display, number `frame`. With no job left
    /// there is nothing to draw and the display ends: `None`. Otherwise the
    /// progress line, which is then on screen.
    pub fn tick(&mut self, frame: usize) -> (r: Option<String>)
        ensures
            final(self).running_seq() == old(self).running_seq(),
            old(self).running_set().is_empty() ==> r is None && final(self).progress_shown()
                == old(self).progress_shown(),
            !old(self).running_set().is_empty() ==> r is Some && r->0@ == progress_text(
                frame as nat,
                old(self).running_seq(),
            ) && final(self).progress_shown(),
    {
        if self.is_done() {
            return None;
        }
        let mut line = String::from_str("\r");
        let glyph = if frame % 4 == 0 {
            "/"
        } else if frame % 4 == 1 {
            "-"
        } else if frame % 4 == 2 {
            "\\"
        } else {
            "|"
        };
        line.append(glyph);
        line.append(" updating: ");
        push_joined(&mut line, &self.running_children, ", ");
        self.should_print_newline = true;
        Some(line)
    }
}

/// The running set that `start` becomes when the jobs named in `exited`
/// finish, in that order (as `State::finish` does).
pub open spec fn after_exits(start: Set<Seq<char>>, exited: Seq<Seq<char>>) -> Set<Seq<char>>
    decreases exited.len(),
{
    if exited.len() == 0 {
        start
    } else {
        after_exits(start, exited.drop_last()).remove(exited.last())
    }
}

proof fn lemma_after_exits_difference(start: Set<Seq<char>>, exited: Seq<Seq<char>>)
    ensures
        after_exits(start, exited) == start.difference(exited.to_set()),
    decreases exited.len(),
{
    if exited.len() == 0 {
        assert(start.difference(exited.to_set()) =~= start);
    } else {
        lemma_after_exits_difference(start, exited.drop_last());
        exited.drop_last().lemma_push_to_set_commute(exited.last());
        assert(exited.drop_last().push(exited.last()) =~= exited);
        assert(after_exits(start, exited) =~= start.difference(exited.to_set()));
    }
}

/// A refresh started with jobs `names` has no job left running, the
/// condition that ends the progress display, exactly when the exit of
/// every one of them has been processed, in whatever order.
pub proof fn lemma_done_iff_all_exited(names: Seq<String>, exited: Seq<String>)
    ensures
        after_exits(views(names).to_set(), views(exited)).is_empty() <==> forall|i: int|
            0 <= i < names.len() ==> views(exited).contains(#[trigger] names[i]@),
{
    lemma_after_exits_difference(views(names).to_set(), views(exited));
    let left = views(names).to_set().difference(views(exited).to_set());
    if left.is_empty() {
        assert forall|i: int| 0 <= i < names.len() implies views(exited).contains(
            #[trigger] names[i]@,
        ) by {
            assert(views(names)[i] == names[i]@);
            assert(views(names).to_set().contains(names[i]@));
            assert(!left.contains(names[i]@));
        }
    }
    if forall|i: int| 0 <= i < names.len() ==> views(exited).contains(#[trigger] names[i]@) {
        assert forall|x: Seq<char>| !left.contains(x) by {
            if views(names).to_set().contains(x) {
                let i = choose|i: int| 0 <= i < views(names).len() && views(names)[i] == x;
                assert(names[i]@ == x);
            }
        }
        assert(left =~= Set::empty());
    }
}

} // verus!
