//! Code-hosting services that repositories are cloned from.
use vstd::prelude::*;

use crate::config::Config;

verus! {

/// A forge's settings.
pub struct Forge {
    /// Host and path prefix of its repositories, as in `github.com`.
    pub url: String,
}

/// A forge with the name it is configured under.
pub struct NamedForge {
    pub name: String,
    pub info: Forge,
}

impl Forge {
    /// The forge configured under `name`, the first one when several are.
    pub fn named(config: &Config, name: &String) -> (r: Option<NamedForge>)
        ensures
            r is None <==> forall|i: int|
                0 <= i < config.forges@.len() ==> #[trigger] config.forges@[i].name@ != name@,
            r is Some ==> r->0.name@ == name@ && exists|i: int|
                0 <= i < config.forges@.len() && #[trigger] config.forges@[i].name@ == name@
                    && r->0.info.url@ == config.forges@[i].info.url@ && forall|j: int|
                    0 <= j < i ==> #[trigger] config.forges@[j].name@ != name@,
    {
        let mut i: usize = 0;
        while i < config.forges.len()
            invariant
                i <= config.forges@.len(),
                forall|j: int| 0 <= j < i ==> #[trigger] config.forges@[j].name@ != name@,
            decreases config.forges@.len() - i,
        {
            if config.forges[i].name == *name {
                let url = config.forges[i].info.url.clone();
                return Some(NamedForge { name: name.clone(), info: Forge { url } });
            }
            i = i + 1;
        }
        None
    }
}

} // verus!
