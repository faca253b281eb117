//! The lookup of one request in a mounted store. The store only decides: each
//! step names a path for the caller to look at on disk, and the caller hands
//! back what it found there, until the lookup says what to send.

use vstd::prelude::*;
use crate::path::{copy_of, resolve, resolved};
use crate::accept::gzip_accepted;
use crate::route::Mount;

verus! {

/// The status of a response that serves the requested file.
pub const OK: u16 = 200;
/// The status of a response that serves a store's not-found page.
pub const NOT_FOUND: u16 = 404;

/// What the disk holds at a path.
#[derive(Clone, Copy, PartialEq, Eq, Structural, Debug)]
pub enum Probe {
    /// A regular file.
    File,
    /// A directory.
    Dir,
    /// Nothing.
    Missing,
    /// The lookup failed otherwise (permission denied and the like).
    Failed,
}

/// How far a lookup has gone.
#[derive(Clone, Copy, PartialEq, Eq, Structural, Debug)]
pub enum Phase {
    /// Looking at the requested path.
    Target,
    /// The requested path is a directory: looking at its `index.html`.
    Index,
    /// Looking at the store's not-found page.
    NotFoundPage,
    /// A file was found: looking for its `.gz` sibling.
    Sibling,
    /// Nothing more to look at.
    Done,
}

/// What the caller is to do next.
pub enum Action {
    /// Look at this path on disk and hand back what is there.
    Look { path: Vec<u8> },
    /// Send `file` with `status`, its media type inferred from its name; where
    /// `gzip` holds, the body is that of its `.gz` sibling, marked as gzip-encoded.
    Send { file: Vec<u8>, status: u16, gzip: bool },
    /// Send an empty 404: the not-found page itself is missing.
    Empty,
    /// Send a 500: the disk could not be read.
    Fail,
}

/// The mathematical form of an [`Action`].
pub enum Act {
    Look(Seq<u8>),
    Send { file: Seq<u8>, status: u16, gzip: bool },
    Empty,
    Fail,
}

impl View for Action {
    type V = Act;

    open spec fn view(&self) -> Act {
        match self {
            Action::Look { path } => Act::Look(path@),
            Action::Send { file, status, gzip } => Act::Send { file: file@, status: *status, gzip: *gzip },
            Action::Empty => Act::Empty,
            Action::Fail => Act::Fail,
        }
    }
}

/// The state of the lookup of one request.
pub struct Lookup {
    pub phase: Phase,
    /// The path looked at, or the file found.
    pub path: Vec<u8>,
    /// The status of the response if the file at `path` is served.
    pub status: u16,
    /// The store's not-found page.
    pub not_found: Vec<u8>,
    /// Whether a `.gz` sibling may be served in place of the file.
    pub negotiate: bool,
}

/// The mathematical form of a [`Lookup`].
pub struct State {
    pub phase: Phase,
    /// The path looked at, or the file found.
    pub path: Seq<u8>,
    /// The status of the response if the file at `path` is served.
    pub status: u16,
    /// The store's not-found page.
    pub not_found: Seq<u8>,
    /// Whether a `.gz` sibling may be served in place of the file.
    pub negotiate: bool,
}

impl View for Lookup {
    type V = State;

    open spec fn view(&self) -> State {
        State {
            phase: self.phase,
            path: self.path@,
            status: self.status,
            not_found: self.not_found@,
            negotiate: self.negotiate,
        }
    }
}

/// The precompressed sibling of `p`: `p` followed by `.gz`.
pub open spec fn gz_of(p: Seq<u8>) -> Seq<u8> {
    p + seq![46u8, 103u8, 122u8]
}

/// The index page of the directory `p`: `p` followed by `/index.html`.
pub open spec fn index_of(p: Seq<u8>) -> Seq<u8> {
    p + seq![47u8, 105u8, 110u8, 100u8, 101u8, 120u8, 46u8, 104u8, 116u8, 109u8, 108u8]
}

/// How many steps a lookup in `phase` may still take, at most.
pub open spec fn rank(phase: Phase) -> nat {
    match phase {
        Phase::Target => 4,
        Phase::Index => 3,
        Phase::NotFoundPage => 2,
        Phase::Sibling => 1,
        Phase::Done => 0,
    }
}

/// Serve `file` with `status`: through its `.gz` sibling where that may apply.
pub open spec fn deliver(s: State, file: Seq<u8>, status: u16) -> (State, Act) {
    if s.negotiate {
        (State { phase: Phase::Sibling, path: file, status, ..s }, Act::Look(gz_of(file)))
    } else {
        (State { phase: Phase::Done, path: file, status, ..s }, Act::Send { file, status, gzip: false })
    }
}

/// Turn to the store's not-found page.
pub open spec fn fall_back(s: State) -> (State, Act) {
    (State { phase: Phase::NotFoundPage, path: s.not_found, status: NOT_FOUND, ..s }, Act::Look(s.not_found))
}

/// The state with nothing more to look at.
pub open spec fn finished(s: State) -> State {
    State { phase: Phase::Done, ..s }
}

/// The lookup of `rest` in `m`, for a client that does or does not accept gzip,
/// and its first action.
pub open spec fn started(m: Mount, rest: Seq<u8>, gzip: bool) -> (State, Act) {
    let s = State {
        phase: Phase::Target,
        path: Seq::empty(),
        status: OK,
        not_found: m.not_found@,
        negotiate: m.precompressed && gzip,
    };
    match resolved(m.root@, rest) {
        Some(p) => (State { path: p, ..s }, Act::Look(p)),
        None => fall_back(s),
    }
}

/// One step of a lookup: what follows from finding `found` at the path last
/// looked at.
pub open spec fn stepped(s: State, found: Probe) -> (State, Act) {
    match s.phase {
        Phase::Target => match found {
            Probe::File => deliver(s, s.path, OK),
            Probe::Dir => (State { phase: Phase::Index, path: index_of(s.path), ..s }, Act::Look(index_of(s.path))),
            Probe::Missing => fall_back(s),
            Probe::Failed => (finished(s), Act::Fail),
        },
        Phase::Index => match found {
            Probe::File => deliver(s, s.path, OK),
            Probe::Failed => (finished(s), Act::Fail),
            _ => fall_back(s),
        },
        Phase::NotFoundPage => match found {
            Probe::File => deliver(s, s.not_found, NOT_FOUND),
            Probe::Failed => (finished(s), Act::Fail),
            _ => (finished(s), Act::Empty),
        },
        Phase::Sibling => (finished(s), Act::Send { file: s.path, status: s.status, gzip: found == Probe::File }),
        Phase::Done => (s, Act::Fail),
    }
}

/// What a lookup in state `s`, whose last action was `a`, ends in on a disk where
/// `fs(p)` is what lies at each path `p`.
pub open spec fn outcome(s: State, a: Act, fs: spec_fn(Seq<u8>) -> Probe) -> Act
    decreases rank(s.phase),
{
    match a {
        Act::Look(p) => if s.phase == Phase::Done {
            Act::Fail
        } else {
            let (t, b) = stepped(s, fs(p));
            outcome(t, b, fs)
        },
        _ => a,
    }
}

/// What the lookup of `rest` in `m` ends in on the disk `fs`.
pub open spec fn answer(m: Mount, rest: Seq<u8>, gzip: bool, fs: spec_fn(Seq<u8>) -> Probe) -> Act {
    let (s, a) = started(m, rest, gzip);
    outcome(s, a, fs)
}

/// `p` followed by `suffix`.
fn with_suffix(p: &Vec<u8>, suffix: &[u8]) -> (r: Vec<u8>)
    ensures
        r@ == p@ + suffix@,
{
    let mut r = copy_of(p.as_slice());
    let mut tail = copy_of(suffix);
    r.append(&mut tail);
    r
}

fn sibling_of(p: &Vec<u8>) -> (r: Vec<u8>)
    ensures
        r@ == gz_of(p@),
{
    let suffix: [u8; 3] = [46, 103, 122];
    let r = with_suffix(p, suffix.as_slice());
    assert(r@ =~= gz_of(p@));
    r
}

fn index_page(p: &Vec<u8>) -> (r: Vec<u8>)
    ensures
        r@ == index_of(p@),
{
    let suffix: [u8; 11] = [47, 105, 110, 100, 101, 120, 46, 104, 116, 109, 108];
    let r = with_suffix(p, suffix.as_slice());
    assert(r@ =~= index_of(p@));
    r
}

impl Lookup {
    /// Starts the lookup of `rest`, the part of the request path below the
    /// mount's prefix, in `mount`; `gzip` says whether the client accepts gzip.
    /// The first action looks at the file that `rest` names under the root, or,
    /// where the path climbs out of the root, at the not-found page.
    pub fn start(mount: &Mount, rest: &[u8], gzip: bool) -> (r: (Lookup, Action))
        ensures
            (r.0@, r.1@) == started(*mount, rest@, gzip),
    {
        let l = Lookup {
            phase: Phase::Target,
            path: Vec::new(),
            status: OK,
            not_found: copy_of(mount.not_found.as_slice()),
            negotiate: mount.precompressed && gzip,
        };
        match resolve(mount.root.as_slice(), rest) {
            Some(p) => {
                let look = copy_of(p.as_slice());
                let l = Lookup { path: p, ..l };
                assert(l@ == started(*mount, rest@, gzip).0);
                (l, Action::Look { path: look })
            },
            None => {
                let (l, a) = l.fall_back();
                (l, a)
            },
        }
    }

    fn fall_back(self) -> (r: (Lookup, Action))
        ensures
            (r.0@, r.1@) == fall_back(self@),
    {
        let look = copy_of(self.not_found.as_slice());
        let path = copy_of(self.not_found.as_slice());
        (Lookup { phase: Phase::NotFoundPage, path, status: NOT_FOUND, ..self }, Action::Look { path: look })
    }

    fn deliver(self, file: Vec<u8>, status: u16) -> (r: (Lookup, Action))
        ensures
            (r.0@, r.1@) == deliver(self@, file@, status),
    {
        if self.negotiate {
            let look = sibling_of(&file);
            (Lookup { phase: Phase::Sibling, path: file, status, ..self }, Action::Look { path: look })
        } else {
            let sent = copy_of(file.as_slice());
            (Lookup { phase: Phase::Done, path: file, status, ..self }, Action::Send { file: sent, status, gzip: false })
        }
    }

    /// Takes what the disk holds at the path that the last action looked at,
    /// and says what to do next.
    pub fn next(self, found: Probe) -> (r: (Lookup, Action))
        requires
            self.phase != Phase::Done,
        ensures
            (r.0@, r.1@) == stepped(self@, found),
    {
        match self.phase {
            Phase::Target => match found {
                Probe::File => {
                    let file = copy_of(self.path.as_slice());
                    self.deliver(file, OK)
                },
                Probe::Dir => {
                    let index = index_page(&self.path);
                    let look = copy_of(index.as_slice());
                    (Lookup { phase: Phase::Index, path: index, ..self }, Action::Look { path: look })
                },
                Probe::Missing => self.fall_back(),
                Probe::Failed => (Lookup { phase: Phase::Done, ..self }, Action::Fail),
            },
            Phase::Index => match found {
                Probe::File => {
                    let file = copy_of(self.path.as_slice());
                    self.deliver(file, OK)
                },
                Probe::Failed => (Lookup { phase: Phase::Done, ..self }, Action::Fail),
                _ => self.fall_back(),
            },
            Phase::NotFoundPage => match found {
                Probe::File => {
                    let file = copy_of(self.not_found.as_slice());
                    self.deliver(file, NOT_FOUND)
                },
                Probe::Failed => (Lookup { phase: Phase::Done, ..self }, Action::Fail),
                _ => (Lookup { phase: Phase::Done, ..self }, Action::Empty),
            },
            _ => {
                let file = copy_of(self.path.as_slice());
                let status = self.status;
                (
                    Lookup { phase: Phase::Done, ..self },
                    Action::Send { file, status, gzip: found == Probe::File },
                )
            },
        }
    }
}

/// A file that exists where the request path names it is served whole with
/// status 200: through its `.gz` sibling exactly where the store serves
/// precompressed files, the client accepts gzip and the sibling exists.
pub proof fn lemma_existing_file_served(m: Mount, rest: Seq<u8>, gzip: bool, fs: spec_fn(Seq<u8>) -> Probe)
    requires
        resolved(m.root@, rest) is Some,
        fs(resolved(m.root@, rest)->0) == Probe::File,
    ensures
        answer(m, rest, gzip, fs) == (Act::Send {
            file: resolved(m.root@, rest)->0,
            status: OK,
            gzip: m.precompressed && gzip && fs(gz_of(resolved(m.root@, rest)->0)) == Probe::File,
        }),
{
    reveal_with_fuel(outcome, 3);
}

/// Where the request path names nothing, or climbs out of the store's root,
/// the store's not-found page is served with status 404 (through its `.gz`
/// sibling on the same terms as any other file).
pub proof fn lemma_missing_file_falls_back(m: Mount, rest: Seq<u8>, gzip: bool, fs: spec_fn(Seq<u8>) -> Probe)
    requires
        resolved(m.root@, rest) is None || fs(resolved(m.root@, rest)->0) == Probe::Missing,
        fs(m.not_found@) == Probe::File,
    ensures
        answer(m, rest, gzip, fs) == (Act::Send {
            file: m.not_found@,
            status: NOT_FOUND,
            gzip: m.precompressed && gzip && fs(gz_of(m.not_found@)) == Probe::File,
        }),
{
    reveal_with_fuel(outcome, 4);
}

/// Whatever the disk holds, a lookup either fails, sends an empty 404, sends
/// the not-found page with status 404, or sends with status 200 the file that
/// the request path names under the root or that directory's index page. So
/// a path that climbs out of the root never reaches a file but the not-found
/// page.
pub proof fn lemma_served_within_root(m: Mount, rest: Seq<u8>, gzip: bool, fs: spec_fn(Seq<u8>) -> Probe)
    ensures
        match answer(m, rest, gzip, fs) {
            Act::Send { file, status, gzip: _ } => (file == m.not_found@ && status == NOT_FOUND) || (
            resolved(m.root@, rest) is Some && status == OK && (file == resolved(m.root@, rest)->0 || file
                == index_of(resolved(m.root@, rest)->0))),
            Act::Look(_) => false,
            _ => true,
        },
{
    reveal_with_fuel(outcome, 5);
}

/// A client that does not accept gzip gets no gzip-encoded body: whatever is
/// sent is the file itself.
pub proof fn lemma_plain_without_gzip(m: Mount, rest: Seq<u8>, fs: spec_fn(Seq<u8>) -> Probe)
    ensures
        answer(m, rest, false, fs) is Send ==> !answer(m, rest, false, fs)->gzip,
{
    reveal_with_fuel(outcome, 5);
}

/// A client whose `Accept-Encoding` headers accept gzip, asking a store that
/// serves precompressed files for a file with a `.gz` sibling, gets the
/// sibling, marked as gzip-encoded.
pub proof fn lemma_gzip_sibling_served(
    m: Mount,
    rest: Seq<u8>,
    headers: Seq<Seq<u8>>,
    fs: spec_fn(Seq<u8>) -> Probe,
)
    requires
        m.precompressed,
        gzip_accepted(headers),
        resolved(m.root@, rest) is Some,
        fs(resolved(m.root@, rest)->0) == Probe::File,
        fs(gz_of(resolved(m.root@, rest)->0)) == Probe::File,
    ensures
        answer(m, rest, gzip_accepted(headers), fs) == (Act::Send {
            file: resolved(m.root@, rest)->0,
            status: OK,
            gzip: true,
        }),
{
    lemma_existing_file_served(m, rest, gzip_accepted(headers), fs);
}

} // verus!
