//! The route table: a fixed greeting, stores mounted under path prefixes, and a
//! default store for every other path.

use vstd::prelude::*;
use crate::path::{bytes_between, copy_of, SLASH};
use vstd::string::StringSliceAdditionalSpecFns;

verus! {

/// A directory tree served under a URL prefix.
pub struct Mount {
    /// The URL prefix, such as `/framedata`; empty for the default store.
    pub prefix: Vec<u8>,
    /// The directory that the paths below the prefix are looked up in.
    pub root: Vec<u8>,
    /// The page served, with status 404, where the requested file does not exist.
    pub not_found: Vec<u8>,
    /// Whether a `.gz` sibling of a file is served to clients that accept gzip.
    pub precompressed: bool,
}

/// Everything that the server answers.
pub struct Site {
    /// The path of the fixed plain-text greeting.
    pub greeting_path: Vec<u8>,
    /// The body of that greeting.
    pub greeting: Vec<u8>,
    /// The stores mounted under a prefix.
    pub mounts: Vec<Mount>,
    /// The store for paths under no prefix.
    pub fallback: Mount,
}

/// Where a request path goes.
pub enum Route {
    /// The fixed greeting.
    Greeting,
    /// The store `mounts[index]`, with the part of the path below its prefix.
    Nested { index: usize, rest: Vec<u8> },
    /// The default store, with the whole path.
    Fallback { rest: Vec<u8> },
}

/// Does `path` lie under `prefix`, on a segment boundary: equal to it, or
/// continuing it with a `/`?
pub open spec fn under(prefix: Seq<u8>, path: Seq<u8>) -> bool {
    path == prefix || (path.len() > prefix.len() && path.subrange(0, prefix.len() as int) == prefix
        && path[prefix.len() as int] == SLASH)
}

/// Does some mount's prefix hold `path`?
pub open spec fn any_under(mounts: Seq<Mount>, path: Seq<u8>) -> bool {
    exists|j: int| 0 <= j < mounts.len() && under((#[trigger] mounts[j]).prefix@, path)
}

/// `mounts[i]` holds `path`, and no mount that holds it has a longer prefix.
pub open spec fn longest_under(mounts: Seq<Mount>, path: Seq<u8>, i: int) -> bool {
    &&& 0 <= i < mounts.len()
    &&& under(mounts[i].prefix@, path)
    &&& forall|j: int|
        0 <= j < mounts.len() && under((#[trigger] mounts[j]).prefix@, path) ==> mounts[j].prefix@.len()
            <= mounts[i].prefix@.len()
}

/// Tests `under(prefix, path)`.
pub fn is_under(prefix: &[u8], path: &[u8]) -> (r: bool)
    ensures
        r == under(prefix@, path@),
{
    if path.len() < prefix.len() {
        return false;
    }
    let mut i: usize = 0;
    while i < prefix.len()
        invariant
            i <= prefix@.len() <= path@.len(),
            forall|k: int| 0 <= k < i ==> prefix@[k] == path@[k],
        decreases prefix@.len() - i,
    {
        if prefix[i] != path[i] {
            return false;
        }
        i = i + 1;
    }
    assert(path@.subrange(0, prefix@.len() as int) =~= prefix@);
    if path.len() == prefix.len() {
        assert(path@ =~= prefix@);
        true
    } else {
        path[prefix.len()] == SLASH
    }
}

fn bytes_of(s: &str) -> (r: Vec<u8>)
    ensures
        r@ == s.spec_bytes(),
{
    copy_of(s.as_bytes())
}

impl Site {
    /// The site as deployed: the greeting at `/foo`; the two precompressed data
    /// directories under `/framedata` and `/P+`, both falling back to the
    /// framedata error page; and the generated site, with its `404.html`, for
    /// every other path.
    pub fn standard() -> (r: Site)
        ensures
            r.greeting_path@ == "/foo".spec_bytes(),
            r.greeting@ == "Hi from /foo".spec_bytes(),
            r.mounts@.len() == 2,
            r.mounts@[0].prefix@ == "/framedata".spec_bytes(),
            r.mounts@[0].root@ == "../../rukaidata/root/framedata".spec_bytes(),
            r.mounts@[0].not_found@ == "../../rukaidata/root/framedata/error.html".spec_bytes(),
            r.mounts@[0].precompressed,
            r.mounts@[1].prefix@ == "/P+".spec_bytes(),
            r.mounts@[1].root@ == "../../rukaidata/root/P+".spec_bytes(),
            r.mounts@[1].not_found@ == "../../rukaidata/root/framedata/error.html".spec_bytes(),
            r.mounts@[1].precompressed,
            r.fallback.prefix@.len() == 0,
            r.fallback.root@ == "../zola/public".spec_bytes(),
            r.fallback.not_found@ == "../zola/public/404.html".spec_bytes(),
            !r.fallback.precompressed,
    {
        let error_page = "../../rukaidata/root/framedata/error.html";
        let framedata = Mount {
            prefix: bytes_of("/framedata"),
            root: bytes_of("../../rukaidata/root/framedata"),
            not_found: bytes_of(error_page),
            precompressed: true,
        };
        let pplus = Mount {
            prefix: bytes_of("/P+"),
            root: bytes_of("../../rukaidata/root/P+"),
            not_found: bytes_of(error_page),
            precompressed: true,
        };
        let mut mounts: Vec<Mount> = Vec::new();
        mounts.push(framedata);
        mounts.push(pplus);
        Site {
            greeting_path: bytes_of("/foo"),
            greeting: bytes_of("Hi from /foo"),
            mounts,
            fallback: Mount {
                prefix: Vec::new(),
                root: bytes_of("../zola/public"),
                not_found: bytes_of("../zola/public/404.html"),
                precompressed: false,
            },
        }
    }

    /// Picks where `path` goes: the greeting on its exact path; else the mount
    /// with the longest prefix that holds the path on a segment boundary, with
    /// the part of the path below that prefix; else the default store.
    pub fn route(&self, path: &[u8]) -> (r: Route)
        ensures
            (r is Greeting) == (path@ == self.greeting_path@),
            (r is Fallback) == (path@ != self.greeting_path@ && !any_under(self.mounts@, path@)),
            match r {
                Route::Greeting => true,
                Route::Nested { index, rest } => longest_under(self.mounts@, path@, index as int)
                    && rest@ == path@.subrange(self.mounts@[index as int].prefix@.len() as int, path@.len() as int),
                Route::Fallback { rest } => rest@ == path@,
            },
    {
        if is_under(self.greeting_path.as_slice(), path) && self.greeting_path.len() == path.len() {
            assert(path@ =~= self.greeting_path@);
            return Route::Greeting;
        }
        let mut best: Option<usize> = None;
        let mut j: usize = 0;
        while j < self.mounts.len()
            invariant
                j <= self.mounts@.len(),
                match best {
                    Some(b) => b < j && under(self.mounts@[b as int].prefix@, path@) && forall|k: int|
                        0 <= k < j && under((#[trigger] self.mounts@[k]).prefix@, path@)
                            ==> self.mounts@[k].prefix@.len() <= self.mounts@[b as int].prefix@.len(),
                    None => forall|k: int| 0 <= k < j ==> !under((#[trigger] self.mounts@[k]).prefix@, path@),
                },
            decreases self.mounts@.len() - j,
        {
            if is_under(self.mounts[j].prefix.as_slice(), path) {
                match best {
                    Some(b) => {
                        if self.mounts[j].prefix.len() > self.mounts[b].prefix.len() {
                            best = Some(j);
                        }
                    },
                    None => {
                        best = Some(j);
                    },
                }
            }
            j = j + 1;
        }
        match best {
            Some(b) => {
                let rest = bytes_between(path, self.mounts[b].prefix.len(), path.len());
                Route::Nested { index: b, rest }
            },
            None => Route::Fallback { rest: copy_of(path) },
        }
    }
}

} // verus!
