//! What the code-hosting service tells of the most popular repositories.

use vstd::prelude::*;
use vstd::std_specs::iter::IteratorSpec;
use vstd::string::StringExecFns;

verus! {

/// The query for the most popular repositories.
#[derive(Clone, Copy, Debug, PartialEq, Eq, Structural)]
pub struct ReposQuery;

/// The variables of the query: what to search for, how many results to
/// return, and after which result to go on.
#[derive(Debug)]
pub struct Variables {
    pub qstr: String,
    pub first: i64,
    pub after: Option<String>,
}

/// The answer to the query.
#[derive(Debug)]
pub struct ResponseData {
    pub search: ReposQuerySearch,
}

/// The results of the search.
#[derive(Debug)]
pub struct ReposQuerySearch {
    pub repository_count: i64,
    pub nodes: Option<Vec<Option<ReposQuerySearchNodes>>>,
}

/// One result of the search: of all the kinds of result, only a repository
/// carries data.
#[derive(Debug)]
pub enum ReposQuerySearchNodes {
    App,
    Discussion,
    Issue,
    MarketplaceListing,
    Organization,
    PullRequest,
    Repository(ReposQuerySearchNodesOnRepository),
    User,
}

/// A repository.
#[derive(Debug)]
pub struct ReposQuerySearchNodesOnRepository {
    pub name: String,
    pub name_with_owner: String,
    pub owner: ReposQuerySearchNodesOnRepositoryOwner,
    pub url: String,
    pub stargazers: ReposQuerySearchNodesOnRepositoryStargazers,
}

/// The owner of a repository.
#[derive(Debug)]
pub struct ReposQuerySearchNodesOnRepositoryOwner {
    pub login: String,
    pub on: ReposQuerySearchNodesOnRepositoryOwnerOn,
}

/// The kind of owner.
#[derive(Clone, Copy, Debug, PartialEq, Eq, Structural)]
pub enum ReposQuerySearchNodesOnRepositoryOwnerOn {
    Organization,
    User,
}

/// The stars of a repository.
#[derive(Clone, Copy, Debug, PartialEq, Eq, Structural)]
pub struct ReposQuerySearchNodesOnRepositoryStargazers {
    pub total_count: i64,
}

/// The repositories among the first `k` results.
pub open spec fn repositories_among(
    nodes: Seq<Option<ReposQuerySearchNodes>>,
    k: int,
) -> Seq<ReposQuerySearchNodesOnRepository>
    decreases k,
{
    if k <= 0 || k > nodes.len() {
        Seq::empty()
    } else {
        match nodes[k - 1] {
            Some(ReposQuerySearchNodes::Repository(repository)) => repositories_among(
                nodes,
                k - 1,
            ).push(repository),
            _ => repositories_among(nodes, k - 1),
        }
    }
}

/// The repositories among the results of a search, in the order of the
/// results; every other kind of result and every missing one is dropped. A
/// search without a list of results has no repositories.
pub fn repositories(data: ResponseData) -> (found: Vec<ReposQuerySearchNodesOnRepository>)
    ensures
        found@ == match data.search.nodes {
            Some(nodes) => repositories_among(nodes@, nodes@.len() as int),
            None => Seq::empty(),
        },
{
    let mut found: Vec<ReposQuerySearchNodesOnRepository> = Vec::new();
    let nodes = match data.search.nodes {
        Some(nodes) => nodes,
        None => {
            return found;
        },
    };
    let ghost all = nodes@;
    for node in it: nodes
        invariant
            it.seq() == all,
            found@ == repositories_among(all, it.index() as int),
    {
        match node {
            Some(ReposQuerySearchNodes::Repository(repository)) => {
                found.push(repository);
            },
            _ => {},
        }
    }
    found
}

/// The name of the directory that a repository is cloned into: the login of
/// its owner, a dot, and its name.
pub open spec fn folder_of(repository: ReposQuerySearchNodesOnRepository) -> Seq<char> {
    repository.owner.login@ + "."@ + repository.name@
}

/// The name of the directory that `repository` is cloned into.
pub fn folder_name(repository: &ReposQuerySearchNodesOnRepository) -> (name: String)
    ensures
        name@ == folder_of(*repository),
{
    let mut name = String::from_str(repository.owner.login.as_str());
    name.append(".");
    name.append(repository.name.as_str());
    name
}

} // verus!
