//! The disk resolver: which files to open for a request, in which order, and
//! what to answer once each open has succeeded or failed.
//!
//! The caller opens the path of each [`Attempt`] and reports an [`Outcome`];
//! [`FileServing::next`] then says what to do next. The chain is: the
//! requested file, the directory's index file, the default resource, and
//! finally `404 Not Found`.
use vstd::prelude::*;

use crate::content::{Content, found_view};
use crate::mime::{guess_mime, mime_of};
use crate::path::{clean_segments, join, join_segments, lemma_segments_stay_under_root, path_segments, split_request_path};
use crate::text::{chars_of, string_of};

verus! {

/// The disk resolver's configuration.
pub struct FileServing {
    root: String,
    index: String,
    default: String,
}

/// Which step of the chain an attempt belongs to.
#[derive(Clone, Copy, PartialEq, Eq, Structural, Debug)]
pub enum Stage {
    Requested,
    Index,
    Fallback,
}

/// What opening an attempt's path found.
#[derive(Clone, Copy, PartialEq, Eq, Structural, Debug)]
pub enum Outcome {
    /// Nothing could be opened there.
    Missing,
    /// A regular file.
    File,
    /// A directory.
    Dir,
}

/// One file to open: its path relative to the root (empty for the default
/// resource), the path to open, and the MIME type to serve it with.
pub struct Attempt {
    pub stage: Stage,
    pub rel: String,
    pub path: String,
    pub mime: String,
}

pub struct AttemptView {
    pub stage: Stage,
    pub rel: Seq<char>,
    pub path: Seq<char>,
    pub mime: Seq<char>,
}

impl Attempt {
    /// A copy with the same stage, paths and MIME type.
    pub fn duplicate(&self) -> (r: Attempt)
        ensures
            r@ == self@,
    {
        Attempt {
            stage: self.stage,
            rel: self.rel.clone(),
            path: self.path.clone(),
            mime: self.mime.clone(),
        }
    }
}

impl View for Attempt {
    type V = AttemptView;

    open spec fn view(&self) -> AttemptView {
        AttemptView { stage: self.stage, rel: self.rel@, path: self.path@, mime: self.mime@ }
    }
}

/// What to do next for a request.
pub enum Decision {
    /// Open this path and report what was found.
    Open(Attempt),
    /// Send this file's bytes.
    Serve(Attempt),
    /// Answer `404 Not Found`.
    NotFound,
}

pub enum DecisionView {
    Open(AttemptView),
    Serve(AttemptView),
    NotFound,
}

impl View for Decision {
    type V = DecisionView;

    open spec fn view(&self) -> DecisionView {
        match self {
            Decision::Open(a) => DecisionView::Open(a@),
            Decision::Serve(a) => DecisionView::Serve(a@),
            Decision::NotFound => DecisionView::NotFound,
        }
    }
}

/// `name` inside the directory `dir`; `dir` empty stands for the root.
pub open spec fn child(dir: Seq<char>, name: Seq<char>) -> Seq<char> {
    if dir.len() == 0 {
        name
    } else {
        dir + seq!['/'] + name
    }
}

/// The path to open for a path relative to the root.
pub open spec fn under_root(root: Seq<char>, rel: Seq<char>) -> Seq<char> {
    if rel.len() == 0 {
        root
    } else {
        root + seq!['/'] + rel
    }
}

/// A file of the tree under the root, at a path relative to it.
pub open spec fn attempt_at(root: Seq<char>, stage: Stage, rel: Seq<char>) -> AttemptView {
    AttemptView { stage, rel, path: under_root(root, rel), mime: mime_of(rel) }
}

impl FileServing {
    pub closed spec fn root_view(&self) -> Seq<char> {
        self.root@
    }

    pub closed spec fn index_view(&self) -> Seq<char> {
        self.index@
    }

    pub closed spec fn default_view(&self) -> Seq<char> {
        self.default@
    }

    /// The default resource, opened as configured, with its own MIME type.
    pub open spec fn fallback(&self) -> AttemptView {
        AttemptView {
            stage: Stage::Fallback,
            rel: Seq::empty(),
            path: self.default_view(),
            mime: mime_of(self.default_view()),
        }
    }

    /// The first step for a request path: the root's index file for `/`, the
    /// file under the root for another path, and the default resource for a
    /// path that climbs above the root.
    pub open spec fn first_step(&self, request: Seq<char>) -> DecisionView {
        match path_segments(request) {
            None => DecisionView::Open(self.fallback()),
            Some(segs) => if segs.len() == 0 {
                DecisionView::Open(attempt_at(self.root_view(), Stage::Index, self.index_view()))
            } else {
                DecisionView::Open(attempt_at(self.root_view(), Stage::Requested, join(segs)))
            },
        }
    }

    /// The step after an attempt: serve what was found, go on to the
    /// directory's index, to the default resource, or answer `404`.
    pub open spec fn next_step(&self, a: AttemptView, o: Outcome) -> DecisionView {
        match (a.stage, o) {
            (_, Outcome::File) => DecisionView::Serve(a),
            (Stage::Requested, Outcome::Dir) => DecisionView::Open(
                attempt_at(self.root_view(), Stage::Index, child(a.rel, self.index_view())),
            ),
            (Stage::Fallback, _) => DecisionView::NotFound,
            _ => DecisionView::Open(self.fallback()),
        }
    }

    /// Configuration from the root directory, the index file name and the
    /// default resource's path.
    pub fn new(root: &str, index: &str, default: &str) -> (r: FileServing)
        ensures
            r.root_view() == root@,
            r.index_view() == index@,
            r.default_view() == default@,
    {
        FileServing {
            root: String::from_str(root),
            index: String::from_str(index),
            default: String::from_str(default),
        }
    }

    fn attempt(&self, stage: Stage, rel: String) -> (r: Attempt)
        ensures
            r@ == attempt_at(self.root_view(), stage, rel@),
    {
        let path = under_root_exec(self.root.as_str(), rel.as_str());
        let mime = guess_mime(rel.as_str());
        Attempt { stage, rel, path, mime }
    }

    fn fallback_attempt(&self) -> (r: Attempt)
        ensures
            r@ == self.fallback(),
    {
        Attempt {
            stage: Stage::Fallback,
            rel: String::new(),
            path: self.default.clone(),
            mime: guess_mime(self.default.as_str()),
        }
    }

    /// The first file to open for a request path. A path that climbs above
    /// the root never leads to a file outside it: it goes to the default
    /// resource.
    pub fn start(&self, request_path: &str) -> (r: Decision)
        ensures
            r@ == self.first_step(request_path@),
            match r@ {
                DecisionView::Open(a) => a.stage == Stage::Requested ==> exists|segs: Seq<
                    Seq<char>,
                >|
                    clean_segments(segs) && a.rel == join(segs) && a.path == under_root(
                        self.root_view(),
                        a.rel,
                    ),
                _ => true,
            },
    {
        proof {
            lemma_segments_stay_under_root(request_path@);
        }
        match split_request_path(request_path) {
            None => Decision::Open(self.fallback_attempt()),
            Some(segs) => {
                if segs.len() == 0 {
                    Decision::Open(self.attempt(Stage::Index, self.index.clone()))
                } else {
                    let rel = string_of(&join_segments(&segs));
                    Decision::Open(self.attempt(Stage::Requested, rel))
                }
            },
        }
    }

    /// The next step after opening `attempt`'s path found `outcome`.
    pub fn next(&self, attempt: Attempt, outcome: Outcome) -> (r: Decision)
        ensures
            r@ == self.next_step(attempt@, outcome),
    {
        match (attempt.stage, outcome) {
            (_, Outcome::File) => Decision::Serve(attempt),
            (Stage::Requested, Outcome::Dir) => {
                let rel = child_exec(attempt.rel.as_str(), self.index.as_str());
                Decision::Open(self.attempt(Stage::Index, rel))
            },
            (Stage::Fallback, _) => Decision::NotFound,
            _ => Decision::Open(self.fallback_attempt()),
        }
    }
}

/// The answer for a served attempt whose file held `data`.
pub fn serve(attempt: &Attempt, data: Vec<u8>) -> (r: Content)
    ensures
        r@ == found_view(data@, attempt.mime@),
{
    Content::found(data, attempt.mime.clone())
}

fn push_all(out: &mut Vec<char>, s: &Vec<char>)
    ensures
        final(out)@ == old(out)@ + s@,
{
    let ghost start = out@;
    let mut k: usize = 0;
    while k < s.len()
        invariant
            0 <= k <= s.len(),
            out@ == start + s@.take(k as int),
        decreases s.len() - k,
    {
        out.push(s[k]);
        assert(s@.take(k + 1) =~= s@.take(k as int).push(s[k as int]));
        k = k + 1;
    }
    assert(s@.take(k as int) =~= s@);
}

fn joined(a: &str, b: &str) -> (r: String)
    ensures
        r@ == a@ + seq!['/'] + b@,
{
    let mut out = chars_of(a);
    out.push('/');
    push_all(&mut out, &chars_of(b));
    string_of(&out)
}

fn child_exec(dir: &str, name: &str) -> (r: String)
    ensures
        r@ == child(dir@, name@),
{
    if dir.is_empty() {
        String::from_str(name)
    } else {
        joined(dir, name)
    }
}

fn under_root_exec(root: &str, rel: &str) -> (r: String)
    ensures
        r@ == under_root(root@, rel@),
{
    if rel.is_empty() {
        String::from_str(root)
    } else {
        joined(root, rel)
    }
}

} // verus!
