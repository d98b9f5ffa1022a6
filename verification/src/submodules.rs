//! Chasing submodule pointers: deciding which git-tree URLs out of a
//! `.gitmodules` file are followed, and what repository they point at.

use vstd::prelude::*;

use crate::bytes::{bytes_eq_slice, to_vec};

verus! {

/// A repository reference a submodule pointer resolves to.
#[derive(Debug, PartialEq)]
pub struct RepoRef {
    pub owner: Vec<u8>,
    pub name: Vec<u8>,
    pub sha: Vec<u8>,
}

impl View for RepoRef {
    type V = (Seq<u8>, Seq<u8>, Seq<u8>);

    open spec fn view(&self) -> (Seq<u8>, Seq<u8>, Seq<u8>) {
        (self.owner@, self.name@, self.sha@)
    }
}

/// The bytes of `"api.github.com"`.
pub open spec fn api_github_seq() -> Seq<u8> {
    seq![
        97u8,
        112u8,
        105u8,
        46u8,
        103u8,
        105u8,
        116u8,
        104u8,
        117u8,
        98u8,
        46u8,
        99u8,
        111u8,
        109u8,
    ]
}

/// The bytes of `"repos"`.
pub open spec fn repos_seq() -> Seq<u8> {
    seq![114u8, 101u8, 112u8, 111u8, 115u8]
}

/// The bytes of `"git"`.
pub open spec fn git_seq() -> Seq<u8> {
    seq![103u8, 105u8, 116u8]
}

/// The bytes of `"trees"`.
pub open spec fn trees_seq() -> Seq<u8> {
    seq![116u8, 114u8, 101u8, 101u8, 115u8]
}

pub fn api_github_bytes() -> (r: Vec<u8>)
    ensures
        r@ == api_github_seq(),
{
    let r: Vec<u8> = vec![
        97u8,
        112u8,
        105u8,
        46u8,
        103u8,
        105u8,
        116u8,
        104u8,
        117u8,
        98u8,
        46u8,
        99u8,
        111u8,
        109u8,
    ];
    proof {
        assert(r@ =~= api_github_seq());
    }
    r
}

pub fn repos_bytes() -> (r: Vec<u8>)
    ensures
        r@ == repos_seq(),
{
    let r: Vec<u8> = vec![114u8, 101u8, 112u8, 111u8, 115u8];
    proof {
        assert(r@ =~= repos_seq());
    }
    r
}

pub fn git_bytes() -> (r: Vec<u8>)
    ensures
        r@ == git_seq(),
{
    let r: Vec<u8> = vec![103u8, 105u8, 116u8];
    proof {
        assert(r@ =~= git_seq());
    }
    r
}

pub fn trees_bytes() -> (r: Vec<u8>)
    ensures
        r@ == trees_seq(),
{
    let r: Vec<u8> = vec![116u8, 114u8, 101u8, 101u8, 115u8];
    proof {
        assert(r@ =~= trees_seq());
    }
    r
}

/// What `url::Url::parse` splits a URL string into: its host, as text,
/// and its path segments. A function of the input string alone.
pub uninterp spec fn url_split_of(s: Seq<char>) -> Option<(Seq<u8>, Seq<Seq<u8>>)>;

/// Relies on url::Url::parse, Url::host_str and Url::path_segments: an
/// absolute URL splits into its host text and its path segments, a
/// deterministic function of the input alone; nothing comes back when
/// the input is no URL with a host and a segmented path.
#[verifier::external_body]
fn split_url(s: &str) -> (r: Option<(Vec<u8>, Vec<Vec<u8>>)>)
    ensures
        match r {
            Some(p) => url_split_of(s@) == Some(
                (p.0@, p.1@.map_values(|v: Vec<u8>| v@)),
            ),
            None => url_split_of(s@) is None,
        },
{
    let parsed = url::Url::parse(s).ok()?;
    let host = parsed.host_str()?.as_bytes().to_vec();
    let segments: Vec<Vec<u8>> = parsed.path_segments()?.map(|g| g.as_bytes().to_vec()).collect();
    Some((host, segments))
}

/// The repository reference a split URL points at: one with GitHub's
/// API host and a path of the shape `repos/{owner}/{name}/git/trees/{sha}`.
pub open spec fn github_tree_of(split: Option<(Seq<u8>, Seq<Seq<u8>>)>) -> Option<
    (Seq<u8>, Seq<u8>, Seq<u8>),
> {
    match split {
        Some((host, segs)) => {
            if host == api_github_seq() && segs.len() == 6 && segs[0] == repos_seq() && segs[3]
                == git_seq() && segs[4] == trees_seq() {
                Some((segs[1], segs[2], segs[5]))
            } else {
                None
            }
        },
        None => None,
    }
}

/// The repository reference a host and path-segment split points at,
/// exactly as `github_tree_of` decides it.
pub fn match_github_tree(host: &[u8], segments: &Vec<Vec<u8>>) -> (r: Option<RepoRef>)
    ensures
        match r {
            Some(rr) => github_tree_of(
                Some((host@, segments@.map_values(|v: Vec<u8>| v@))),
            ) == Some(rr@),
            None => github_tree_of(
                Some((host@, segments@.map_values(|v: Vec<u8>| v@))),
            ) is None,
        },
{
    let ghost sv = segments@.map_values(|v: Vec<u8>| v@);
    if !bytes_eq_slice(host, api_github_bytes().as_slice()) {
        return None;
    }
    if segments.len() != 6 {
        return None;
    }
    proof {
        assert(sv[0] == segments@[0]@);
        assert(sv[1] == segments@[1]@);
        assert(sv[2] == segments@[2]@);
        assert(sv[3] == segments@[3]@);
        assert(sv[4] == segments@[4]@);
        assert(sv[5] == segments@[5]@);
    }
    if !bytes_eq_slice(segments[0].as_slice(), repos_bytes().as_slice()) {
        return None;
    }
    if !bytes_eq_slice(segments[3].as_slice(), git_bytes().as_slice()) {
        return None;
    }
    if !bytes_eq_slice(segments[4].as_slice(), trees_bytes().as_slice()) {
        return None;
    }
    Some(
        RepoRef {
            owner: to_vec(segments[1].as_slice()),
            name: to_vec(segments[2].as_slice()),
            sha: to_vec(segments[5].as_slice()),
        },
    )
}

/// Parses a submodule's git tree URL into the repository it points at:
/// only `api.github.com/repos/{owner}/{name}/git/trees/{sha}` pointers
/// are followed.
pub fn parse_submodule(git_url: &str) -> (r: Option<RepoRef>)
    ensures
        match r {
            Some(rr) => github_tree_of(url_split_of(git_url@)) == Some(rr@),
            None => github_tree_of(url_split_of(git_url@)) is None,
        },
{
    match split_url(git_url) {
        Some((host, segments)) => match_github_tree(host.as_slice(), &segments),
        None => None,
    }
}

} // verus!
