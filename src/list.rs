//! Listing the managed repositories.
use vstd::prelude::*;

use crate::resolve::{relative, strip_base};
use crate::update::views;

verus! {

/// How to list.
pub struct Args {
    /// Print absolute paths.
    pub long: bool,
}

/// How repository `path` is listed: whole when `long`, else relative to
/// `base` (whole when it is not under `base`).
pub open spec fn listed(base: Seq<Seq<char>>, path: Seq<Seq<char>>, long: bool) -> Seq<Seq<char>> {
    if long {
        path
    } else {
        match relative(path, base) {
            Some(short) => short,
            None => path,
        }
    }
}

/// The path under which repository `path` is listed.
pub fn display_path(base: &Vec<String>, path: &Vec<String>, long: bool) -> (r: Vec<String>)
    ensures
        views(r@) == listed(views(base@), views(path@), long),
{
    if long {
        return path.clone();
    }
    match strip_base(path, base) {
        Some(short) => short,
        None => path.clone(),
    }
}

} // verus!
