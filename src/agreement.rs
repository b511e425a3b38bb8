//! What the two resolvers answer, side by side.
//!
//! The disk resolver is run against a model of the tree under the root: a map
//! from the path opened to what is there. The in-memory resolver answers from
//! [`build_table`]. The lemmas here state where the two agree.
use vstd::prelude::*;

use crate::content::{ContentView, found_view, not_found_view};
use crate::disk::{child, AttemptView, DecisionView, FileServing, Outcome, under_root};
use crate::memory::{build_table, file_entry, file_key, key_components, memory_answer};
use crate::mime::mime_of;
use crate::path::{join, lemma_segments_stay_under_root, path_segments, request_key};

verus! {

/// What a path on disk holds.
pub enum Node {
    File(Seq<u8>),
    Dir,
}

pub open spec fn is_file(tree: Map<Seq<char>, Node>, path: Seq<char>) -> bool {
    tree.contains_key(path) && tree[path] is File
}

pub open spec fn is_dir(tree: Map<Seq<char>, Node>, path: Seq<char>) -> bool {
    tree.contains_key(path) && tree[path] is Dir
}

/// What opening `path` finds.
pub open spec fn outcome_of(tree: Map<Seq<char>, Node>, path: Seq<char>) -> Outcome {
    if is_file(tree, path) {
        Outcome::File
    } else if is_dir(tree, path) {
        Outcome::Dir
    } else {
        Outcome::Missing
    }
}

/// Follows the disk resolver's decisions for at most `fuel` opens.
pub open spec fn run(fs: FileServing, tree: Map<Seq<char>, Node>, d: DecisionView, fuel: nat) -> ContentView
    decreases fuel,
{
    match d {
        DecisionView::Serve(a) => found_view(tree[a.path]->File_0, a.mime),
        DecisionView::NotFound => not_found_view(),
        DecisionView::Open(a) => if fuel == 0 {
            not_found_view()
        } else {
            run(fs, tree, fs.next_step(a, outcome_of(tree, a.path)), (fuel - 1) as nat)
        },
    }
}

/// The disk resolver's answer for a request: the chain has at most three opens.
pub open spec fn disk_answer(fs: FileServing, tree: Map<Seq<char>, Node>, request: Seq<char>) -> ContentView {
    run(fs, tree, fs.first_step(request), 3)
}

/// No file answers the request on disk: neither the requested file nor the
/// index file of a requested directory.
pub open spec fn disk_miss(fs: FileServing, tree: Map<Seq<char>, Node>, request: Seq<char>) -> bool {
    match path_segments(request) {
        None => true,
        Some(segs) => if segs.len() == 0 {
            !is_file(tree, under_root(fs.root_view(), fs.index_view()))
        } else {
            let rel = join(segs);
            let p = under_root(fs.root_view(), rel);
            &&& !is_file(tree, p)
            &&& is_dir(tree, p) ==> !is_file(
                tree,
                under_root(fs.root_view(), child(rel, fs.index_view())),
            )
        },
    }
}

/// No entry of the table answers the request.
pub open spec fn memory_miss(table: Map<Seq<char>, ContentView>, request: Seq<char>) -> bool {
    match request_key(request) {
        None => true,
        Some(k) => !table.contains_key(k),
    }
}

/// Keys of the files that no other file shares.
pub open spec fn key_unique(files: Seq<(Seq<Seq<char>>, Seq<u8>)>, index: Seq<char>, i: int) -> bool {
    forall|j: int|
        0 <= j < files.len() && j != i ==> file_key(files[j].0, index) != file_key(
            files[i].0,
            index,
        )
}

/// A file whose key no other file shares is in the table, as its own entry.
pub proof fn lemma_build_table_entry(files: Seq<(Seq<Seq<char>>, Seq<u8>)>, index: Seq<char>, i: int)
    requires
        0 <= i < files.len(),
        key_unique(files, index, i),
    ensures
        build_table(files, index).contains_key(file_key(files[i].0, index)),
        build_table(files, index)[file_key(files[i].0, index)] == file_entry(files[i].0, files[i].1),
    decreases files.len(),
{
    let init = files.drop_last();
    if i < files.len() - 1 {
        assert forall|j: int| 0 <= j < init.len() && j != i implies file_key(init[j].0, index)
            != file_key(init[i].0, index) by {
            assert(init[j] == files[j] && init[i] == files[i]);
        }
        lemma_build_table_entry(init, index, i);
        assert(init[i] == files[i]);
        assert(file_key(files.last().0, index) != file_key(files[i].0, index)) by {
            assert(files.last() == files[files.len() - 1]);
        }
    }
}

/// The table holds exactly one key for each file read: the file's key.
pub proof fn lemma_build_table_keys(files: Seq<(Seq<Seq<char>>, Seq<u8>)>, index: Seq<char>)
    ensures
        build_table(files, index).dom() == Set::new(
            |k: Seq<char>| exists|j: int| 0 <= j < files.len() && file_key(files[j].0, index) == k,
        ),
    decreases files.len(),
{
    if files.len() > 0 {
        let init = files.drop_last();
        lemma_build_table_keys(init, index);
        assert(build_table(files, index).dom() =~= Set::new(
            |k: Seq<char>| exists|j: int| 0 <= j < files.len() && file_key(files[j].0, index) == k,
        )) by {
            assert forall|k: Seq<char>| #[trigger] build_table(files, index).dom().contains(k) implies exists|j: int|
                0 <= j < files.len() && file_key(files[j].0, index) == k by {
                if k == file_key(files.last().0, index) {
                    assert(files[files.len() - 1] == files.last());
                } else {
                    let j = choose|j: int| 0 <= j < init.len() && file_key(init[j].0, index) == k;
                    assert(init[j] == files[j]);
                }
            }
            assert forall|k: Seq<char>| (exists|j: int| 0 <= j < files.len() && file_key(files[j].0, index) == k)
                implies #[trigger] build_table(files, index).dom().contains(k) by {
                let j = choose|j: int| 0 <= j < files.len() && file_key(files[j].0, index) == k;
                if j < init.len() {
                    assert(init[j] == files[j]);
                }
            }
        }
    } else {
        assert(build_table(files, index).dom() =~= Set::new(
            |k: Seq<char>| exists|j: int| 0 <= j < files.len() && file_key(files[j].0, index) == k,
        ));
    }
}

/// A request for a regular file other than an index file gets the same
/// bytes and MIME type from both resolvers when the table was read from the
/// same file.
pub proof fn lemma_regular_file_agrees(
    fs: FileServing,
    tree: Map<Seq<char>, Node>,
    files: Seq<(Seq<Seq<char>>, Seq<u8>)>,
    default: Option<ContentView>,
    request: Seq<char>,
    i: int,
)
    requires
        0 <= i < files.len(),
        key_unique(files, fs.index_view(), i),
        path_segments(request) == Some(files[i].0),
        files[i].0.len() > 0,
        files[i].0.last() != fs.index_view(),
        tree.contains_key(under_root(fs.root_view(), join(files[i].0))),
        tree[under_root(fs.root_view(), join(files[i].0))] == Node::File(files[i].1),
    ensures
        disk_answer(fs, tree, request) == file_entry(files[i].0, files[i].1),
        memory_answer(build_table(files, fs.index_view()), default, request) == file_entry(
            files[i].0,
            files[i].1,
        ),
{
    lemma_build_table_entry(files, fs.index_view(), i);
    assert(key_components(files[i].0, fs.index_view()) == files[i].0);
    reveal_with_fuel(run, 2);
}

/// A request for a directory, the root included, gets that directory's index
/// file from both resolvers, keyed by the directory's own path.
pub proof fn lemma_directory_index_agrees(
    fs: FileServing,
    tree: Map<Seq<char>, Node>,
    files: Seq<(Seq<Seq<char>>, Seq<u8>)>,
    default: Option<ContentView>,
    request: Seq<char>,
    i: int,
)
    requires
        0 <= i < files.len(),
        key_unique(files, fs.index_view(), i),
        files[i].0.len() > 0,
        files[i].0.last() == fs.index_view(),
        path_segments(request) == Some(files[i].0.drop_last()),
        files[i].0.len() > 1 ==> is_dir(tree, under_root(fs.root_view(), join(files[i].0.drop_last()))),
        tree.contains_key(under_root(fs.root_view(), join(files[i].0))),
        tree[under_root(fs.root_view(), join(files[i].0))] == Node::File(files[i].1),
    ensures
        disk_answer(fs, tree, request) == file_entry(files[i].0, files[i].1),
        memory_answer(build_table(files, fs.index_view()), default, request) == file_entry(
            files[i].0,
            files[i].1,
        ),
{
    let comps = files[i].0;
    let dir = comps.drop_last();
    lemma_build_table_entry(files, fs.index_view(), i);
    assert(key_components(comps, fs.index_view()) == dir);
    if comps.len() == 1 {
        assert(join(comps) == comps[0]);
        reveal_with_fuel(run, 2);
    } else {
        lemma_segments_stay_under_root(request);
        if dir.len() == 1 {
            assert(crate::path::clean_segment(dir[0]));
        }
        assert(join(dir).len() > 0);
        assert(join(comps) == child(join(dir), fs.index_view()));
        assert(fs.first_step(request) == DecisionView::Open(
            AttemptView {
                stage: crate::disk::Stage::Requested,
                rel: join(dir),
                path: under_root(fs.root_view(), join(dir)),
                mime: mime_of(join(dir)),
            },
        ));
        reveal_with_fuel(run, 3);
    }
}

/// Where no file answers a request and the default resource can be read,
/// both resolvers answer with the default resource and status 200.
pub proof fn lemma_default_agrees(
    fs: FileServing,
    tree: Map<Seq<char>, Node>,
    table: Map<Seq<char>, ContentView>,
    request: Seq<char>,
    data: Seq<u8>,
)
    requires
        disk_miss(fs, tree, request),
        memory_miss(table, request),
        tree.contains_key(fs.default_view()),
        tree[fs.default_view()] == Node::File(data),
    ensures
        disk_answer(fs, tree, request) == found_view(data, mime_of(fs.default_view())),
        memory_answer(table, Some(found_view(data, mime_of(fs.default_view()))), request)
            == found_view(data, mime_of(fs.default_view())),
{
    reveal_with_fuel(run, 4);
}

/// Where no file answers a request and there is no readable default
/// resource, both resolvers answer `404 Not Found` as `text/plain`.
pub proof fn lemma_not_found_agrees(
    fs: FileServing,
    tree: Map<Seq<char>, Node>,
    table: Map<Seq<char>, ContentView>,
    request: Seq<char>,
)
    requires
        disk_miss(fs, tree, request),
        memory_miss(table, request),
        !is_file(tree, fs.default_view()),
    ensures
        disk_answer(fs, tree, request) == not_found_view(),
        memory_answer(table, None, request) == not_found_view(),
{
    reveal_with_fuel(run, 4);
}

/// A request path that climbs above the root is answered by neither
/// resolver from under the root: the disk resolver opens only the default
/// resource, and the in-memory one answers with its default or `404`.
pub proof fn lemma_traversal_falls_back(
    fs: FileServing,
    tree: Map<Seq<char>, Node>,
    table: Map<Seq<char>, ContentView>,
    default: Option<ContentView>,
    request: Seq<char>,
)
    requires
        path_segments(request) is None,
    ensures
        fs.first_step(request) == DecisionView::Open(fs.fallback()),
        disk_answer(fs, tree, request) == if is_file(tree, fs.default_view()) {
            found_view(tree[fs.default_view()]->File_0, mime_of(fs.default_view()))
        } else {
            not_found_view()
        },
        memory_answer(table, default, request) == match default {
            Some(d) => d,
            None => not_found_view(),
        },
{
    reveal_with_fuel(run, 2);
}

} // verus!
