//! The directories that are searched for files, as the user names them.

use vstd::prelude::*;

verus! {

/// Whether the path starts with a `~` that stands for a home directory: a
/// `~` alone, or one with a path separator after it.
pub open spec fn names_home(path: Seq<char>) -> bool {
    path.len() > 0 && path[0] == '~' && (path.len() == 1 || path[1] == '/' || path[1] == '\\')
}

/// Whether `expanded` can be what `path` stands for: `path` itself where
/// it does not start with a `~` that stands for a home directory, else
/// what follows the `~` in `path` behind a home directory, which is again
/// `~` where none is known.
pub open spec fn stands_for(path: Seq<char>, expanded: Seq<char>) -> bool {
    if names_home(path) {
        exists|home: Seq<char>| expanded == #[trigger] (home + path.skip(1))
    } else {
        expanded == path
    }
}

/// Trusted: `shellexpand::tilde` puts the home directory of the user in
/// place of a `~` at the start of `path`, where the `~` stands alone or
/// before a path separator and a home directory is known, and hands back
/// `path` as it is in every other case. Which directory that is depends on
/// the environment; the contract holds whatever it is.
#[verifier::external_body]
fn tilde(path: &str) -> (r: String)
    ensures
        stands_for(path@, r@),
{
    shellexpand::tilde(path).into_owned()
}

/// The paths that `sources` stand for, in the same order.
pub fn expand_sources(sources: &Vec<String>) -> (r: Vec<String>)
    ensures
        r.len() == sources.len(),
        forall|i: int| 0 <= i < r.len() ==> stands_for(sources[i]@, #[trigger] r[i]@),
{
    let mut expanded: Vec<String> = Vec::new();
    let mut i: usize = 0;
    while i < sources.len()
        invariant
            i <= sources.len(),
            expanded.len() == i,
            forall|j: int| 0 <= j < i ==> stands_for(sources[j]@, #[trigger] expanded[j]@),
        decreases sources.len() - i,
    {
        expanded.push(tilde(sources[i].as_str()));
        i += 1;
    }
    expanded
}

} // verus!
