//! The in-memory resolver: a table from normalized path to content, built
//! once from every file under the root and then only read.
use vstd::prelude::*;

use crate::content::{Content, ContentView, found_view, not_found_view};
use crate::mime::{guess_mime, mime_of};
use crate::path::{join, join_segments, normalize_path, request_key};
use crate::text::chars_of;

verus! {

/// One entry of the table.
pub struct CacheEntry {
    pub key: String,
    pub content: Content,
}

/// A file read from under the root: its path relative to the root, one
/// component per element, and its bytes.
pub struct LoadedFile {
    pub components: Vec<String>,
    pub data: Vec<u8>,
}

/// Content for every file under the root, keyed by normalized relative path,
/// and the default resource if one could be loaded.
pub struct InMemoryServing {
    default: Option<Content>,
    files: Vec<CacheEntry>,
}

/// The components under which a file is stored: a file named like the index
/// stands for its directory.
pub open spec fn key_components(components: Seq<Seq<char>>, index: Seq<char>) -> Seq<Seq<char>> {
    if components.len() > 0 && components.last() == index {
        components.drop_last()
    } else {
        components
    }
}

/// The table key of a file.
pub open spec fn file_key(components: Seq<Seq<char>>, index: Seq<char>) -> Seq<char> {
    join(key_components(components, index))
}

/// The entry a file is stored as: its bytes, with the MIME type of its own
/// relative path.
pub open spec fn file_entry(components: Seq<Seq<char>>, data: Seq<u8>) -> ContentView {
    found_view(data, mime_of(join(components)))
}

/// The table that inserting `files` in order yields; a later file wins over
/// an earlier one with the same key.
pub open spec fn build_table(files: Seq<(Seq<Seq<char>>, Seq<u8>)>, index: Seq<char>) -> Map<
    Seq<char>,
    ContentView,
>
    decreases files.len(),
{
    if files.len() == 0 {
        Map::empty()
    } else {
        let (components, data) = files.last();
        build_table(files.drop_last(), index).insert(
            file_key(components, index),
            file_entry(components, data),
        )
    }
}

pub open spec fn loaded_view(files: Seq<LoadedFile>) -> Seq<(Seq<Seq<char>>, Seq<u8>)> {
    files.map_values(|f: LoadedFile| (f.components.deep_view(), f.data@))
}

/// What a lookup answers: the entry under the request's key, else the
/// default resource, else `404 Not Found`.
pub open spec fn memory_answer(
    table: Map<Seq<char>, ContentView>,
    default: Option<ContentView>,
    request: Seq<char>,
) -> ContentView {
    match request_key(request) {
        Some(k) if table.contains_key(k) => table[k],
        _ => match default {
            Some(d) => d,
            None => not_found_view(),
        },
    }
}

pub open spec fn entries_table(entries: Seq<CacheEntry>) -> Map<Seq<char>, ContentView>
    decreases entries.len(),
{
    if entries.len() == 0 {
        Map::empty()
    } else {
        entries_table(entries.drop_last()).insert(entries.last().key@, entries.last().content@)
    }
}

pub open spec fn keys_unique(entries: Seq<CacheEntry>) -> bool {
    forall|i: int, j: int|
        0 <= i < entries.len() && 0 <= j < entries.len() && i != j ==> entries[i].key@
            != entries[j].key@
}

proof fn lemma_entries_table_index(entries: Seq<CacheEntry>, i: int)
    requires
        keys_unique(entries),
        0 <= i < entries.len(),
    ensures
        entries_table(entries).contains_key(entries[i].key@),
        entries_table(entries)[entries[i].key@] == entries[i].content@,
    decreases entries.len(),
{
    let init = entries.drop_last();
    if i < entries.len() - 1 {
        assert(keys_unique(init)) by {
            assert forall|a: int, b: int|
                0 <= a < init.len() && 0 <= b < init.len() && a != b implies init[a].key@
                != init[b].key@ by {
                assert(init[a] == entries[a] && init[b] == entries[b]);
            }
        }
        assert(init[i] == entries[i]);
        lemma_entries_table_index(init, i);
        assert(entries[i].key@ != entries.last().key@);
    }
}

proof fn lemma_entries_table_keys(entries: Seq<CacheEntry>, k: Seq<char>)
    requires
        entries_table(entries).contains_key(k),
    ensures
        exists|i: int| 0 <= i < entries.len() && entries[i].key@ == k,
    decreases entries.len(),
{
    if entries.last().key@ == k {
        assert(entries[entries.len() - 1].key@ == k);
    } else {
        let init = entries.drop_last();
        lemma_entries_table_keys(init, k);
        let i = choose|i: int| 0 <= i < init.len() && init[i].key@ == k;
        assert(entries[i] == init[i]);
    }
}

proof fn lemma_entries_table_update(entries: Seq<CacheEntry>, i: int, e: CacheEntry)
    requires
        keys_unique(entries),
        0 <= i < entries.len(),
        e.key@ == entries[i].key@,
    ensures
        keys_unique(entries.update(i, e)),
        entries_table(entries.update(i, e)) == entries_table(entries).insert(e.key@, e.content@),
    decreases entries.len(),
{
    let u = entries.update(i, e);
    assert(keys_unique(u)) by {
        assert forall|a: int, b: int|
            0 <= a < u.len() && 0 <= b < u.len() && a != b implies u[a].key@ != u[b].key@ by {
            if a == i {
                assert(entries[i].key@ != entries[b].key@);
            } else if b == i {
                assert(entries[a].key@ != entries[i].key@);
            }
        }
    }
    let init = entries.drop_last();
    if i == entries.len() - 1 {
        assert(u.drop_last() =~= init);
        assert(entries_table(u) =~= entries_table(entries).insert(e.key@, e.content@)) by {
            assert forall|k: Seq<char>| #[trigger] entries_table(u).contains_key(k) implies
                entries_table(entries).insert(e.key@, e.content@).contains_key(k) by {}
        }
    } else {
        assert(keys_unique(init)) by {
            assert forall|a: int, b: int|
                0 <= a < init.len() && 0 <= b < init.len() && a != b implies init[a].key@
                != init[b].key@ by {
                assert(init[a] == entries[a] && init[b] == entries[b]);
            }
        }
        assert(init[i] == entries[i]);
        lemma_entries_table_update(init, i, e);
        assert(u.drop_last() =~= init.update(i, e));
        assert(u.last() == entries.last());
        assert(e.key@ != entries.last().key@) by {
            assert(entries[i].key@ != entries[entries.len() - 1].key@);
        }
        assert(entries_table(u) =~= entries_table(entries).insert(e.key@, e.content@));
    }
}

impl InMemoryServing {
    /// The table of normalized path to content.
    pub closed spec fn table(&self) -> Map<Seq<char>, ContentView> {
        entries_table(self.files@)
    }

    /// The default resource, if one was loaded.
    pub closed spec fn default_view(&self) -> Option<ContentView> {
        match self.default {
            Some(c) => Some(c@),
            None => None,
        }
    }

    /// No two entries share a key.
    pub closed spec fn wf(&self) -> bool {
        keys_unique(self.files@)
    }

    /// A table with no entries and the given default resource.
    pub fn with_default(default: Option<Content>) -> (r: InMemoryServing)
        ensures
            r.wf(),
            r.table() == Map::<Seq<char>, ContentView>::empty(),
            r.default_view() == match default {
                Some(c) => Some(c@),
                None => None::<ContentView>,
            },
    {
        InMemoryServing { default, files: Vec::new() }
    }

    fn position(&self, key: &String) -> (r: Option<usize>)
        ensures
            match r {
                Some(i) => i < self.files@.len() && self.files@[i as int].key@ == key@,
                None => forall|i: int|
                    0 <= i < self.files@.len() ==> self.files@[i].key@ != key@,
            },
    {
        let mut i: usize = 0;
        while i < self.files.len()
            invariant
                0 <= i <= self.files@.len(),
                forall|j: int| 0 <= j < i ==> self.files@[j].key@ != key@,
            decreases self.files.len() - i,
        {
            if self.files[i].key == *key {
                return Some(i);
            }
            i = i + 1;
        }
        None
    }

    /// Stores `content` under `key`, replacing what was stored there.
    pub fn insert(&mut self, key: String, content: Content)
        requires
            old(self).wf(),
        ensures
            final(self).wf(),
            final(self).table() == old(self).table().insert(key@, content@),
            final(self).default_view() == old(self).default_view(),
    {
        let e = CacheEntry { key, content };
        match self.position(&e.key) {
            Some(i) => {
                proof {
                    lemma_entries_table_update(self.files@, i as int, e);
                }
                self.files.set(i, e);
            },
            None => {
                let ghost before = self.files@;
                self.files.push(e);
                proof {
                    assert(self.files@.drop_last() =~= before);
                    assert forall|a: int, b: int|
                        0 <= a < self.files@.len() && 0 <= b < self.files@.len() && a != b
                        implies self.files@[a].key@ != self.files@[b].key@ by {
                        if a < before.len() && b < before.len() {
                            assert(self.files@[a] == before[a] && self.files@[b] == before[b]);
                        }
                    }
                }
            },
        }
    }

    /// Stores a file read from under the root, under its table key, with the
    /// MIME type of its relative path.
    pub fn add_file(&mut self, file: LoadedFile, index: &str)
        requires
            old(self).wf(),
        ensures
            final(self).wf(),
            final(self).table() == old(self).table().insert(
                file_key(file.components.deep_view(), index@),
                file_entry(file.components.deep_view(), file.data@),
            ),
            final(self).default_view() == old(self).default_view(),
    {
        let LoadedFile { components, data } = file;
        let ghost comps = components.deep_view();
        let mut segs: Vec<Vec<char>> = Vec::new();
        let mut i: usize = 0;
        while i < components.len()
            invariant
                0 <= i <= components.len(),
                comps == components.deep_view(),
                segs.deep_view() == comps.take(i as int),
            decreases components.len() - i,
        {
            let ghost before = segs.deep_view();
            let s = chars_of(components[i].as_str());
            assert(s.deep_view() =~= s@);
            assert(comps[i as int] == components@[i as int].deep_view());
            segs.push(s);
            assert(segs.deep_view() =~= before.push(s@));
            assert(segs.deep_view() =~= comps.take(i + 1));
            i = i + 1;
        }
        assert(comps.take(i as int) =~= comps);
        let path = crate::text::string_of(&join_segments(&segs));
        let mime = guess_mime(path.as_str());
        let ix = chars_of(index);
        let n = segs.len();
        proof {
            if n > 0 {
                assert(segs[n - 1].deep_view() =~= segs[n - 1]@);
                assert(comps.last() == segs.deep_view()[n - 1]);
            }
        }
        if n > 0 && vec_chars_eq(&segs[n - 1], &ix) {
            segs.pop();
            assert(segs.deep_view() =~= comps.drop_last());
        }
        let key = crate::text::string_of(&join_segments(&segs));
        self.insert(key, Content::found(data, mime));
    }

    /// Builds the table from the files read under the root, in order, and
    /// the default resource from its path and, where it could be read, its
    /// bytes.
    pub fn new(files: Vec<LoadedFile>, index: &str, default_path: &str, default_data: Option<Vec<u8>>) -> (r: InMemoryServing)
        ensures
            r.wf(),
            r.table() == build_table(loaded_view(files@), index@),
            r.default_view() == match default_data {
                Some(d) => Some(found_view(d@, mime_of(default_path@))),
                None => None::<ContentView>,
            },
    {
        let default = match default_data {
            Some(d) => Some(Content::found(d, guess_mime(default_path))),
            None => None,
        };
        let mut r = InMemoryServing::with_default(default);
        let ghost all = loaded_view(files@);
        assert(all.skip(0) =~= all);
        let mut files = files;
        assert(all.len() == files.len());
        let mut i: usize = 0;
        while files.len() > 0
            invariant
                r.wf(),
                i + files@.len() == all.len(),
                all.len() <= usize::MAX,
                loaded_view(files@) == all.skip(i as int),
                r.table() == build_table(all.take(i as int), index@),
                r.default_view() == match default_data {
                    Some(d) => Some(found_view(d@, mime_of(default_path@))),
                    None => None::<ContentView>,
                },
            decreases files.len(),
        {
            let ghost before = files@;
            let f = files.remove(0);
            proof {
                assert(loaded_view(before)[0] == all[i as int]);
                assert(all.take(i + 1).drop_last() =~= all.take(i as int));
                assert forall|j: int| 0 <= j < files@.len() implies loaded_view(files@)[j] == all.skip(i + 1)[j] by {
                    assert(files@[j] == before[j + 1]);
                    assert(loaded_view(before)[j + 1] == all.skip(i as int)[j + 1]);
                }
                assert(loaded_view(files@) =~= all.skip(i + 1));
            }
            r.add_file(f, index);
            i = i + 1;
        }
        assert(all.take(i as int) =~= all);
        r
    }

    /// The content for a request path: the entry under its key, else the
    /// default resource, else `404 Not Found`.
    pub fn resolve(&self, request_path: &str) -> (r: Content)
        requires
            self.wf(),
        ensures
            r@ == memory_answer(self.table(), self.default_view(), request_path@),
    {
        if let Some(k) = normalize_path(request_path) {
            if let Some(i) = self.position(&k) {
                proof {
                    lemma_entries_table_index(self.files@, i as int);
                }
                return self.files[i].content.duplicate();
            }
            proof {
                if self.table().contains_key(k@) {
                    lemma_entries_table_keys(self.files@, k@);
                }
            }
        }
        match &self.default {
            Some(d) => d.duplicate(),
            None => Content::not_found(),
        }
    }
}

fn vec_chars_eq(a: &Vec<char>, b: &Vec<char>) -> (r: bool)
    ensures
        r == (a@ == b@),
{
    if a.len() != b.len() {
        return false;
    }
    let mut i: usize = 0;
    while i < a.len()
        invariant
            0 <= i <= a.len(),
            a.len() == b.len(),
            forall|j: int| 0 <= j < i ==> a@[j] == b@[j],
        decreases a.len() - i,
    {
        if a[i] != b[i] {
            return false;
        }
        i = i + 1;
    }
    assert(a@ =~= b@);
    true
}

} // verus!
