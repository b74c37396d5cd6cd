//! Crate paths and the repository each crate belongs to.

use vstd::prelude::*;
use vstd::std_specs::iter::IteratorSpec;
use vstd::string::{StrSliceExecFns, StringExecFns};

verus! {

/// The paths of the crates of a corpus.
#[derive(Debug)]
pub struct CratePaths(pub Vec<String>);

impl CratePaths {
    /// No crate.
    pub fn new() -> (paths: Self)
        ensures
            paths.0@.len() == 0,
    {
        CratePaths(Vec::new())
    }

    /// The number of crates.
    pub fn len(&self) -> (n: usize)
        ensures
            n == self.0@.len(),
    {
        self.0.len()
    }

    /// The path of the `i`-th crate.
    pub fn get(&self, i: usize) -> (path: Option<&String>)
        ensures
            match path {
                Some(p) => i < self.0@.len() && *p == self.0@[i as int],
                None => i >= self.0@.len(),
            },
    {
        if i < self.0.len() {
            Some(&self.0[i])
        } else {
            None
        }
    }

    /// The paths in one line, with a comma and a space between each two.
    pub open spec fn listing(paths: Seq<String>, k: int) -> Seq<char>
        decreases k,
    {
        if k <= 0 || k > paths.len() {
            Seq::empty()
        } else if k == 1 {
            paths[0]@
        } else {
            Self::listing(paths, k - 1) + ", "@ + paths[k - 1]@
        }
    }

    /// The paths in one line, with a comma and a space between each two.
    pub fn describe(&self) -> (text: String)
        ensures
            text@ == Self::listing(self.0@, self.0@.len() as int),
    {
        let mut text = String::new();
        let mut i: usize = 0;
        while i < self.0.len()
            invariant
                i <= self.0@.len(),
                text@ == Self::listing(self.0@, i as int),
            decreases self.0@.len() - i,
        {
            if i > 0 {
                text.append(", ");
            }
            text.append(self.0[i].as_str());
            proof {
                if i == 0 {
                    assert(text@ =~= self.0@[0]@);
                }
            }
            i += 1;
        }
        text
    }
}

/// The number of `/` among the first `k` characters of `path`.
pub open spec fn slashes_before(path: Seq<char>, k: int) -> nat
    decreases k,
{
    if k <= 0 || k > path.len() {
        0
    } else if path[k - 1] == '/' {
        slashes_before(path, k - 1) + 1
    } else {
        slashes_before(path, k - 1)
    }
}

/// Whether the first four segments of `path` end before position `cut`:
/// either `cut` is the fourth `/`, or the path has exactly four segments
/// and ends at `cut`.
pub open spec fn is_repo_cut(path: Seq<char>, cut: int) -> bool {
    &&& 0 <= cut <= path.len()
    &&& slashes_before(path, cut) == 3
    &&& cut < path.len() ==> path[cut] == '/'
}

/// Whether `path` has at least four segments between its `/`.
pub open spec fn has_repo_path(path: Seq<char>) -> bool {
    slashes_before(path, path.len() as int) >= 3
}

/// There are no fewer `/` among more characters.
pub proof fn lemma_slashes_monotone(path: Seq<char>, j: int, k: int)
    requires
        0 <= j <= k <= path.len(),
    ensures
        slashes_before(path, j) <= slashes_before(path, k),
    decreases k - j,
{
    if j < k {
        lemma_slashes_monotone(path, j, k - 1);
    }
}

/// At most one position ends the first four segments of a path.
pub proof fn lemma_repo_cut_unique(path: Seq<char>, a: int, b: int)
    requires
        is_repo_cut(path, a),
        is_repo_cut(path, b),
    ensures
        a == b,
{
    if a < b {
        lemma_slashes_monotone(path, a + 1, b);
    } else if b < a {
        lemma_slashes_monotone(path, b + 1, a);
    }
}

/// Where the first four segments of `path` end, if it has that many.
fn repo_cut(path: &str) -> (cut: Option<usize>)
    ensures
        match cut {
            Some(c) => has_repo_path(path@) && is_repo_cut(path@, c as int),
            None => !has_repo_path(path@),
        },
{
    let n = path.unicode_len();
    let mut slashes: usize = 0;
    let mut at: usize = 0;
    let chars = path.chars();
    for c in it: chars
        invariant
            it.seq() == path@,
            n == path@.len(),
            at == it.index(),
            at <= path@.len(),
            slashes == slashes_before(path@, at as int),
            slashes <= 3,
            slashes <= at,
    {
        if c == '/' {
            if slashes == 3 {
                proof {
                    lemma_slashes_monotone(path@, at as int + 1, path@.len() as int);
                }
                return Some(at);
            }
            slashes += 1;
        }
        at += 1;
    }
    if slashes == 3 {
        Some(at)
    } else {
        None
    }
}

/// The first four segments of `path`, with their `/` between them.
pub open spec fn repo_path_of(path: Seq<char>) -> Seq<char> {
    path.subrange(0, choose|cut: int| is_repo_cut(path, cut))
}

/// The first four segments of a path end where `is_repo_cut` says.
pub proof fn lemma_repo_path_of(path: Seq<char>, cut: int)
    requires
        is_repo_cut(path, cut),
    ensures
        repo_path_of(path) == path.subrange(0, cut),
{
    let chosen = choose|c: int| is_repo_cut(path, c);
    lemma_repo_cut_unique(path, chosen, cut);
}

/// The path of the repository that the crate at `crate_path` belongs to: the
/// first four segments of the path, with their `/` between them.
pub fn get_repo_path(crate_path: &str) -> (repo_path: String)
    requires
        has_repo_path(crate_path@),
    ensures
        repo_path@ == repo_path_of(crate_path@),
{
    match repo_cut(crate_path) {
        Some(cut) => {
            proof {
                lemma_repo_path_of(crate_path@, cut as int);
            }
            String::from_str(crate_path.substring_char(0, cut))
        },
        None => String::new(),
    }
}

/// The path of the repository that the crate at `crate_path` belongs to,
/// where the path has four segments; none where it has fewer.
pub fn find_repo_path(crate_path: &str) -> (repo_path: Option<String>)
    ensures
        match repo_path {
            Some(p) => has_repo_path(crate_path@) && p@ == repo_path_of(crate_path@),
            None => !has_repo_path(crate_path@),
        },
{
    match repo_cut(crate_path) {
        Some(cut) => {
            proof {
                lemma_repo_path_of(crate_path@, cut as int);
            }
            Some(String::from_str(crate_path.substring_char(0, cut)))
        },
        None => None,
    }
}

} // verus!
